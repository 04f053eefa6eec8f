//! Tree-walking execution.
//!
//! The interpreter owns the variable table and consumes a well-formed
//! program tree: for each statement it resolves the source value, then
//! folds the operator chain left to right over it. All observable
//! effect is the sequence of printed lines — returned, not written —
//! and the variable bindings; the final value of each fold is
//! discarded. A runtime fault (a malformed literal, an unbound
//! variable, a number leaving its bounds, an unrotatable character)
//! stops the run where it happened and is reported beside the output
//! produced up to that point.

use vstd::prelude::*;

use crate::numeral::spec_parse_float;
use crate::numeral::spec_parse_i64;
use crate::numeral::spec_parse_u32;
use crate::strutil::string_eq;
use crate::tokens::TokenName;
use crate::tokens::TokenV;
use crate::tree::SyntaxTree;
use crate::tree::SyntaxTreeKind;
use crate::tree::TreeV;
use crate::tree::lemma_tree_views;
use crate::tree::wf_program;
use crate::tree::wf_statement;
use crate::value::RunErrV;
use crate::value::RunError;
use crate::value::UValue;
use crate::value::ValV;
use crate::value::spec_shift;
use crate::value::spec_to_text;
use crate::value::wf_value;

verus! {

broadcast use vstd::std_specs::vec::group_vec_axioms;

/// The views of a vector of output lines.
pub open spec fn strings_view(v: Seq<String>) -> Seq<Seq<char>> {
    v.map_values(|s: String| s@)
}

/// The execution state threaded through a run: the variable table, the
/// output lines so far, and the fault that stopped the run, if any.
/// Once the fault is set, nothing moves.
#[verifier::ext_equal]
pub ghost struct ExecState {
    pub table: Map<Seq<char>, ValV>,
    pub out: Seq<Seq<char>>,
    pub err: Option<RunErrV>,
}

/// Every value a table holds respects the value bounds.
pub open spec fn wf_table(m: Map<Seq<char>, ValV>) -> bool {
    forall|k: Seq<char>| m.dom().contains(k) ==> wf_value(#[trigger] m[k])
}

/// What resolving a source token to a value yields: literals parse
/// directly, a variable looks itself up in the table.
pub open spec fn spec_source_value(table: Map<Seq<char>, ValV>, tok: TokenV) -> Result<
    ValV,
    RunErrV,
> {
    match tok.name {
        TokenName::Integer => match spec_parse_i64(tok.value) {
            Option::Some(n) => Result::Ok(ValV::Integer(n)),
            Option::None => Result::Err(RunErrV::MalformedLiteral { text: tok.value }),
        },
        TokenName::Float => match spec_parse_float(tok.value) {
            Option::Some(ns) => Result::Ok(ValV::Float { num: ns.0, scale: ns.1 }),
            Option::None => Result::Err(RunErrV::MalformedLiteral { text: tok.value }),
        },
        TokenName::Letter => {
            if tok.value.len() >= 1 {
                Result::Ok(ValV::Letter(tok.value[0]))
            } else {
                Result::Err(RunErrV::MalformedLiteral { text: tok.value })
            }
        },
        TokenName::UString => Result::Ok(ValV::Str(tok.value)),
        TokenName::Variable => {
            if table.dom().contains(tok.value) {
                Result::Ok(table[tok.value])
            } else {
                Result::Err(RunErrV::UnboundVariable { var_name: tok.value })
            }
        },
        _ => Result::Err(RunErrV::MalformedTree),
    }
}

/// A resolved source value respects the value bounds.
pub proof fn lemma_source_value_wf(table: Map<Seq<char>, ValV>, tok: TokenV)
    requires
        wf_table(table),
    ensures
        spec_source_value(table, tok) matches Result::Ok(v) ==> wf_value(v),
{
    if tok.name == TokenName::Float {
        if spec_parse_float(tok.value) is Some {
            let s = tok.value;
            let b = crate::numeral::sign_len(s);
            let dot = crate::numeral::find_dot(s, b);
            crate::numeral::lemma_find_dot(s, b);
            let ip = s.subrange(b, dot);
            let fp = s.subrange(dot + 1, s.len() as int);
            crate::numeral::lemma_dec_value_nonneg(ip);
            crate::numeral::lemma_dec_value_nonneg(fp);
            crate::numeral::lemma_pow10_le(0, s.len() - dot - 1);
            let a = crate::numeral::dec_value(ip);
            let p = crate::numeral::pow10(s.len() - dot - 1);
            assert(a * p >= 0) by (nonlinear_arith)
                requires
                    a >= 0,
                    p >= 1,
            ;
        }
    }
}

/// Applies one operator node to the running value: increment,
/// decrement, print, bind, or a repeat block iterating its operator.
pub open spec fn spec_apply_op(st: ExecState, v: ValV, op: TreeV) -> (ExecState, ValV)
    decreases op, 0int,
{
    if st.err is Some {
        (st, v)
    } else if op.kind == SyntaxTreeKind::UnaryOp {
        match op.token {
            Option::Some(tok) => {
                if tok.name == TokenName::Plus || tok.name == TokenName::Minus {
                    match spec_shift(v, tok.name == TokenName::Plus) {
                        Result::Ok(v2) => (st, v2),
                        Result::Err(e) => (
                            ExecState { table: st.table, out: st.out, err: Option::Some(e) },
                            v,
                        ),
                    }
                } else if tok.name == TokenName::Stdout {
                    (
                        ExecState {
                            table: st.table,
                            out: st.out.push(spec_to_text(v)),
                            err: st.err,
                        },
                        v,
                    )
                } else if tok.name == TokenName::Variable {
                    (
                        ExecState {
                            table: st.table.insert(tok.value, v),
                            out: st.out,
                            err: st.err,
                        },
                        v,
                    )
                } else {
                    (
                        ExecState {
                            table: st.table,
                            out: st.out,
                            err: Option::Some(RunErrV::MalformedTree),
                        },
                        v,
                    )
                }
            },
            Option::None => (
                ExecState {
                    table: st.table,
                    out: st.out,
                    err: Option::Some(RunErrV::MalformedTree),
                },
                v,
            ),
        }
    } else if op.kind == SyntaxTreeKind::RepeatedUnaryOp {
        match op.token {
            Option::Some(tok) => {
                if op.children.len() == 1 {
                    match spec_parse_u32(tok.value) {
                        Option::Some(n) => spec_iter_op(st, v, op.children[0], n as nat),
                        Option::None => (
                            ExecState {
                                table: st.table,
                                out: st.out,
                                err: Option::Some(
                                    RunErrV::MalformedLiteral { text: tok.value },
                                ),
                            },
                            v,
                        ),
                    }
                } else {
                    (
                        ExecState {
                            table: st.table,
                            out: st.out,
                            err: Option::Some(RunErrV::MalformedTree),
                        },
                        v,
                    )
                }
            },
            Option::None => (
                ExecState {
                    table: st.table,
                    out: st.out,
                    err: Option::Some(RunErrV::MalformedTree),
                },
                v,
            ),
        }
    } else {
        (
            ExecState { table: st.table, out: st.out, err: Option::Some(RunErrV::MalformedTree) },
            v,
        )
    }
}

/// Applies `op` to the running value `n` times in sequence.
pub open spec fn spec_iter_op(st: ExecState, v: ValV, op: TreeV, n: nat) -> (ExecState, ValV)
    decreases op, n,
{
    if n == 0 {
        (st, v)
    } else {
        let stepped = spec_apply_op(st, v, op);
        spec_iter_op(stepped.0, stepped.1, op, (n - 1) as nat)
    }
}

/// Once the fault is set, iterating moves nothing.
pub proof fn lemma_iter_op_err(st: ExecState, v: ValV, op: TreeV, n: nat)
    requires
        st.err is Some,
    ensures
        spec_iter_op(st, v, op, n) == (st, v),
    decreases n,
{
    if n > 0 {
        let stepped = spec_apply_op(st, v, op);
        assert(stepped == (st, v));
        lemma_iter_op_err(st, v, op, (n - 1) as nat);
    }
}

/// Folds a chain of operator nodes left to right over the running
/// value.
pub open spec fn spec_exec_ops(st: ExecState, v: ValV, ops: Seq<TreeV>) -> (ExecState, ValV)
    decreases ops.len(),
{
    if ops.len() == 0 {
        (st, v)
    } else {
        let stepped = spec_apply_op(st, v, ops[0]);
        spec_exec_ops(stepped.0, stepped.1, ops.subrange(1, ops.len() as int))
    }
}

/// Executes one statement against a table: resolves the source, then
/// folds the operators between the source and the end-of-line marker.
/// The final value of the fold is discarded.
pub open spec fn spec_exec_statement(table: Map<Seq<char>, ValV>, stmt: TreeV) -> ExecState {
    let st0 = ExecState { table, out: Seq::empty(), err: Option::None };
    match stmt.children[0].token {
        Option::Some(tok) => match spec_source_value(table, tok) {
            Result::Ok(v) => spec_exec_ops(
                st0,
                v,
                stmt.children.subrange(1, stmt.children.len() - 1),
            ).0,
            Result::Err(e) => ExecState { table, out: Seq::empty(), err: Option::Some(e) },
        },
        Option::None => ExecState {
            table,
            out: Seq::empty(),
            err: Option::Some(RunErrV::MalformedTree),
        },
    }
}

/// Executes the statements of a program in order, concatenating their
/// output; a fault stops the run there.
pub open spec fn spec_exec_program(table: Map<Seq<char>, ValV>, stmts: Seq<TreeV>) -> ExecState
    decreases stmts.len(),
{
    if stmts.len() == 0 {
        ExecState { table, out: Seq::empty(), err: Option::None }
    } else {
        let st1 = spec_exec_statement(table, stmts[0]);
        if st1.err is Some {
            st1
        } else {
            let rest = spec_exec_program(st1.table, stmts.subrange(1, stmts.len() as int));
            ExecState { table: rest.table, out: st1.out + rest.out, err: rest.err }
        }
    }
}

/// With the fault set, folding operators moves nothing.
pub proof fn lemma_exec_ops_err(st: ExecState, v: ValV, ops: Seq<TreeV>)
    requires
        st.err is Some,
    ensures
        spec_exec_ops(st, v, ops) == (st, v),
    decreases ops.len(),
{
    if ops.len() > 0 {
        let stepped = spec_apply_op(st, v, ops[0]);
        assert(stepped == (st, v));
        lemma_exec_ops_err(st, v, ops.subrange(1, ops.len() as int));
    }
}

/// The variable table a sequence of bindings builds, later bindings
/// winning.
pub open spec fn table_view(entries: Seq<(String, UValue)>) -> Map<Seq<char>, ValV>
    decreases entries.len(),
{
    if entries.len() == 0 {
        Map::empty()
    } else {
        table_view(entries.drop_last()).insert(entries.last().0@, entries.last().1@)
    }
}

/// The interpreter: the variable table, which lives as long as the
/// interpreter does — across the programs of a whole session.
pub struct UInterpreter {
    variable_table: Vec<(String, UValue)>,
}

impl View for UInterpreter {
    type V = Map<Seq<char>, ValV>;

    closed spec fn view(&self) -> Map<Seq<char>, ValV> {
        table_view(self.variable_table@)
    }
}

impl UInterpreter {
    /// A fresh interpreter with an empty variable table.
    pub fn new() -> (r: Self)
        ensures
            r@ == Map::<Seq<char>, ValV>::empty(),
            wf_table(r@),
    {
        let r = UInterpreter { variable_table: Vec::new() };
        proof {
            assert(r@ =~= Map::<Seq<char>, ValV>::empty());
        }
        r
    }

    /// The value bound to `name`, when there is one.
    fn lookup(&self, name: &String) -> (r: Option<UValue>)
        ensures
            match r {
                Option::Some(v) => self@.dom().contains(name@) && v@ == self@[name@],
                Option::None => !self@.dom().contains(name@),
            },
    {
        let ghost whole = self@;
        let mut k: usize = self.variable_table.len();
        proof {
            assert(self.variable_table@.take(k as int) =~= self.variable_table@);
        }
        while k > 0
            invariant
                k <= self.variable_table.len(),
                whole == table_view(self.variable_table@),
                ({
                    let part = table_view(self.variable_table@.take(k as int));
                    &&& whole.dom().contains(name@) == part.dom().contains(name@)
                    &&& (part.dom().contains(name@) ==> whole[name@] == part[name@])
                }),
            decreases k,
        {
            proof {
                assert(self.variable_table@.take(k as int).drop_last() =~= self.variable_table@
                    .take(k as int - 1));
                assert(self.variable_table@.take(k as int).last() == self.variable_table@[k as int
                    - 1]);
            }
            let entry = &self.variable_table[k - 1];
            if string_eq(&entry.0, name) {
                return Option::Some(entry.1.duplicate());
            }
            k = k - 1;
        }
        proof {
            assert(self.variable_table@.take(0) =~= Seq::<(String, UValue)>::empty());
        }
        Option::None
    }

    /// Binds `name` to `value`, replacing any earlier binding.
    fn bind(&mut self, name: String, value: UValue)
        ensures
            final(self)@ == old(self)@.insert(name@, value@),
    {
        let ghost before = self.variable_table@;
        self.variable_table.push((name, value));
        proof {
            assert(final(self).variable_table@.drop_last() =~= before);
        }
    }

    /// Resolves a source node to a value: a literal parses directly, a
    /// variable looks itself up in the table.
    pub fn get_source_value(&self, source_node: &SyntaxTree) -> (r: Result<UValue, RunError>)
        requires
            wf_table(self@),
        ensures
            ({
                match source_node@.token {
                    Option::Some(tok) => match r {
                        Result::Ok(v) => spec_source_value(self@, tok) == Result::<
                            ValV,
                            RunErrV,
                        >::Ok(v@) && wf_value(v@),
                        Result::Err(e) => spec_source_value(self@, tok) == Result::<
                            ValV,
                            RunErrV,
                        >::Err(e@),
                    },
                    Option::None => r matches Result::Err(e) && e@ == RunErrV::MalformedTree,
                }
            }),
    {
        proof {
            match source_node@.token {
                Option::Some(tok) => lemma_source_value_wf(self@, tok),
                Option::None => (),
            }
        }
        match &source_node.token {
            Option::None => Result::Err(RunError::MalformedTree),
            Option::Some(t) => match t.name {
                TokenName::Integer => {
                    let cs = crate::strutil::string_to_chars(t.value.as_str());
                    match crate::numeral::parse_i64(&cs) {
                        Option::Some(n) => Result::Ok(UValue::Integer(n)),
                        Option::None => Result::Err(
                            RunError::MalformedLiteral { text: t.value.clone() },
                        ),
                    }
                },
                TokenName::Float => {
                    let cs = crate::strutil::string_to_chars(t.value.as_str());
                    match crate::numeral::parse_float(&cs) {
                        Option::Some(ns) => Result::Ok(UValue::Float { num: ns.0, scale: ns.1 }),
                        Option::None => Result::Err(
                            RunError::MalformedLiteral { text: t.value.clone() },
                        ),
                    }
                },
                TokenName::Letter => {
                    if t.value.as_str().unicode_len() >= 1 {
                        let c = t.value.as_str().get_char(0);
                        Result::Ok(UValue::Letter(c))
                    } else {
                        Result::Err(RunError::MalformedLiteral { text: t.value.clone() })
                    }
                },
                TokenName::UString => Result::Ok(UValue::UString(t.value.clone())),
                TokenName::Variable => {
                    match self.lookup(&t.value) {
                        Option::Some(v) => Result::Ok(v),
                        Option::None => Result::Err(
                            RunError::UnboundVariable { var_name: t.value.clone() },
                        ),
                    }
                },
                _ => Result::Err(RunError::MalformedTree),
            },
        }
    }

    /// Applies one operator node to `input`, appending any printed
    /// lines to `output` and keeping any binding it makes.
    fn apply_operator(
        &mut self,
        input: &UValue,
        operator: &SyntaxTree,
        output: &mut Vec<String>,
    ) -> (r: Result<UValue, RunError>)
        requires
            wf_table(old(self)@),
            wf_value(input@),
        ensures
            wf_table(final(self)@),
            ({
                let stepped = spec_apply_op(
                    ExecState {
                        table: old(self)@,
                        out: strings_view(old(output)@),
                        err: Option::None,
                    },
                    input@,
                    operator@,
                );
                &&& final(self)@ == stepped.0.table
                &&& strings_view(final(output)@) == stepped.0.out
                &&& match r {
                    Result::Ok(v) => stepped.0.err is None && v@ == stepped.1 && wf_value(v@),
                    Result::Err(e) => stepped.0.err == Option::Some(e@),
                }
            }),
        decreases *operator,
    {
        proof {
            lemma_tree_views(operator.children@);
        }
        match operator.kind {
            SyntaxTreeKind::UnaryOp => match &operator.token {
                Option::None => Result::Err(RunError::MalformedTree),
                Option::Some(token) => match token.name {
                    TokenName::Plus => input.shifted(true),
                    TokenName::Minus => input.shifted(false),
                    TokenName::Stdout => {
                        let line = input.to_text();
                        output.push(line);
                        proof {
                            assert(strings_view(final(output)@) =~= strings_view(old(output)@)
                                .push(spec_to_text(input@)));
                        }
                        Result::Ok(input.duplicate())
                    },
                    TokenName::Variable => {
                        self.bind(token.value.clone(), input.duplicate());
                        proof {
                            assert forall|x: Seq<char>| final(self)@.dom().contains(x) implies
                                wf_value(#[trigger] final(self)@[x]) by {
                                if x != token.value@ {
                                    assert(old(self)@.dom().contains(x));
                                }
                            }
                        }
                        Result::Ok(input.duplicate())
                    },
                    _ => Result::Err(RunError::MalformedTree),
                },
            },
            SyntaxTreeKind::RepeatedUnaryOp => match &operator.token {
                Option::None => Result::Err(RunError::MalformedTree),
                Option::Some(token) => {
                    if operator.children.len() != 1 {
                        return Result::Err(RunError::MalformedTree);
                    }
                    let cs = crate::strutil::string_to_chars(token.value.as_str());
                    let n = match crate::numeral::parse_u32(&cs) {
                        Option::Some(n) => n,
                        Option::None => {
                            return Result::Err(
                                RunError::MalformedLiteral { text: token.value.clone() },
                            );
                        },
                    };
                    let child = &operator.children[0];
                    let ghost childv = operator@.children[0];
                    let ghost target = spec_iter_op(
                        ExecState {
                            table: old(self)@,
                            out: strings_view(old(output)@),
                            err: Option::None,
                        },
                        input@,
                        childv,
                        n as nat,
                    );
                    let mut result = input.duplicate();
                    let mut j: u32 = 0;
                    while j < n
                        invariant
                            j <= n,
                            wf_table(self@),
                            wf_value(result@),
                            childv == tree_view_of(*child),
                            (decreases_to!(*operator => *child)),
                            spec_apply_op(
                                ExecState {
                                    table: old(self)@,
                                    out: strings_view(old(output)@),
                                    err: Option::None,
                                },
                                input@,
                                operator@,
                            ) == target,
                            target == spec_iter_op(
                                ExecState {
                                    table: self@,
                                    out: strings_view(output@),
                                    err: Option::None,
                                },
                                result@,
                                childv,
                                (n - j) as nat,
                            ),
                        decreases n - j,
                    {
                        let ghost pre = ExecState {
                            table: self@,
                            out: strings_view(output@),
                            err: Option::None,
                        };
                        let ghost vpre = result@;
                        let stepped = self.apply_operator(&result, child, output);
                        match stepped {
                            Result::Ok(v) => {
                                result = v;
                            },
                            Result::Err(e) => {
                                proof {
                                    let sp = spec_apply_op(pre, vpre, childv);
                                    lemma_iter_op_err(sp.0, sp.1, childv, (n - j - 1) as nat);
                                    assert(target == (sp.0, sp.1));
                                }
                                return Result::Err(e);
                            },
                        }
                        j = j + 1;
                    }
                    proof {
                        assert(target == (
                            ExecState {
                                table: self@,
                                out: strings_view(output@),
                                err: Option::None,
                            },
                            result@,
                        ));
                    }
                    Result::Ok(result)
                },
            },
            _ => Result::Err(RunError::MalformedTree),
        }
    }

    /// Executes one statement: resolves its source, folds its operator
    /// chain, and returns the lines it printed beside the fault that
    /// stopped it, if one did.
    pub fn exec_statement(&mut self, statement: &SyntaxTree) -> (r: (Vec<String>, Option<RunError>))
        requires
            wf_statement(statement@),
            wf_table(old(self)@),
        ensures
            wf_table(final(self)@),
            ({
                let st = spec_exec_statement(old(self)@, statement@);
                &&& final(self)@ == st.table
                &&& strings_view(r.0@) == st.out
                &&& match r.1 {
                    Option::Some(e) => st.err == Option::Some(e@),
                    Option::None => st.err is None,
                }
            }),
    {
        proof {
            lemma_tree_views(statement.children@);
        }
        let ghost target = spec_exec_statement(old(self)@, statement@);
        let mut output: Vec<String> = Vec::new();
        let source_value = self.get_source_value(&statement.children[0]);
        let mut value = match source_value {
            Result::Ok(v) => v,
            Result::Err(e) => {
                proof {
                    assert(strings_view(output@) =~= Seq::<Seq<char>>::empty());
                }
                return (output, Option::Some(e));
            },
        };
        let ghost ops = statement@.children.subrange(1, statement@.children.len() - 1);
        proof {
            assert(strings_view(output@) =~= Seq::<Seq<char>>::empty());
            assert(target == spec_exec_ops(
                ExecState { table: old(self)@, out: strings_view(output@), err: Option::None },
                value@,
                ops,
            ).0);
        }
        let last = statement.children.len() - 1;
        let mut i: usize = 1;
        proof {
            assert(ops.subrange(0, ops.len() as int) =~= ops);
        }
        while i < last
            invariant
                target == spec_exec_statement(old(self)@, statement@),
                1 <= i <= last,
                last == statement.children.len() - 1,
                statement@.children.len() == statement.children.len(),
                wf_table(self@),
                wf_value(value@),
                ops == statement@.children.subrange(1, statement@.children.len() - 1),
                forall|k: int|
                    0 <= k < statement.children.len() ==> statement@.children[k] == tree_view_of(
                        statement.children@[k],
                    ),
                target == spec_exec_ops(
                    ExecState { table: self@, out: strings_view(output@), err: Option::None },
                    value@,
                    ops.subrange(i - 1, ops.len() as int),
                ).0,
            decreases last - i,
        {
            let ghost pre = ExecState {
                table: self@,
                out: strings_view(output@),
                err: Option::None,
            };
            let ghost vpre = value@;
            let ghost rest = ops.subrange(i - 1, ops.len() as int);
            proof {
                assert(rest[0] == ops[i - 1]);
                assert(ops[i - 1] == statement@.children[i as int]);
                assert(rest.subrange(1, rest.len() as int) =~= ops.subrange(
                    i as int,
                    ops.len() as int,
                ));
            }
            let stepped = self.apply_operator(&value, &statement.children[i], &mut output);
            match stepped {
                Result::Ok(v) => {
                    value = v;
                },
                Result::Err(e) => {
                    proof {
                        let sp = spec_apply_op(pre, vpre, rest[0]);
                        lemma_exec_ops_err(sp.0, sp.1, rest.subrange(1, rest.len() as int));
                        assert(target == sp.0);
                    }
                    return (output, Option::Some(e));
                },
            }
            i = i + 1;
        }
        proof {
            assert(ops.subrange(i - 1, ops.len() as int) =~= Seq::<TreeV>::empty());
        }
        (output, Option::None)
    }

    /// Executes a whole program, statement by statement: the variable
    /// table carries across statements, the printed lines concatenate,
    /// and a fault stops the run where it happened.
    pub fn execute(&mut self, program: &SyntaxTree) -> (r: (Vec<String>, Option<RunError>))
        requires
            wf_program(program@),
            wf_table(old(self)@),
        ensures
            wf_table(final(self)@),
            ({
                let st = spec_exec_program(old(self)@, program@.children);
                &&& final(self)@ == st.table
                &&& strings_view(r.0@) == st.out
                &&& match r.1 {
                    Option::Some(e) => st.err == Option::Some(e@),
                    Option::None => st.err is None,
                }
            }),
    {
        proof {
            lemma_tree_views(program.children@);
        }
        let ghost target = spec_exec_program(old(self)@, program@.children);
        let mut output: Vec<String> = Vec::new();
        let mut i: usize = 0;
        proof {
            assert(program@.children.subrange(0, program@.children.len() as int) =~= program@
                .children);
            assert(strings_view(output@) =~= Seq::<Seq<char>>::empty());
        }
        while i < program.children.len()
            invariant
                target == spec_exec_program(old(self)@, program@.children),
                i <= program.children.len(),
                program@.children.len() == program.children.len(),
                wf_table(self@),
                wf_program(program@),
                forall|k: int|
                    0 <= k < program.children.len() ==> program@.children[k] == tree_view_of(
                        program.children@[k],
                    ),
                ({
                    let rest = spec_exec_program(
                        self@,
                        program@.children.subrange(i as int, program@.children.len() as int),
                    );
                    &&& target.table == rest.table
                    &&& target.out == strings_view(output@) + rest.out
                    &&& target.err == rest.err
                }),
            decreases program.children.len() - i,
        {
            let ghost rest_stmts = program@.children.subrange(
                i as int,
                program@.children.len() as int,
            );
            proof {
                assert(rest_stmts[0] == program@.children[i as int]);
                assert(rest_stmts.subrange(1, rest_stmts.len() as int) =~= program@.children
                    .subrange(i as int + 1, program@.children.len() as int));
            }
            let ghost table_pre = self@;
            let (mut lines, err) = self.exec_statement(&program.children[i]);
            proof {
                assert(strings_view(output@ + lines@) =~= strings_view(output@) + strings_view(
                    lines@,
                ));
            }
            output.append(&mut lines);
            match err {
                Option::Some(e) => {
                    return (output, Option::Some(e));
                },
                Option::None => (),
            }
            i = i + 1;
        }
        proof {
            assert(program@.children.subrange(i as int, program@.children.len() as int) =~= Seq::<
                TreeV,
            >::empty());
            assert(target.out =~= strings_view(output@));
        }
        (output, Option::None)
    }
}

/// The view of one tree node (an alias usable inside loop invariants).
pub open spec fn tree_view_of(t: SyntaxTree) -> TreeV {
    crate::tree::tree_view(t)
}

} // verus!
