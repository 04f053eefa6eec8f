//! The syntax tree the parser builds and the interpreter walks.
//!
//! A node is tagged with a kind, optionally carries the token it was
//! built from, and owns its children. A well-formed program tree obeys
//! the shape the interpreter assumes: the root is `ProgramStart` and
//! holds only statements; a statement starts with exactly one `Source`,
//! ends with exactly one `EndOfLine`, and has operators in between; a
//! `RepeatedUnaryOp` carries its repeat-count token and wraps exactly
//! one operator.

use vstd::prelude::*;

use crate::tokens::Token;
use crate::tokens::TokenName;
use crate::tokens::TokenV;

verus! {

broadcast use vstd::std_specs::vec::group_vec_axioms;

/// The kinds of syntax-tree node.
#[derive(Debug, PartialEq, Eq, Structural, Clone, Copy)]
pub enum SyntaxTreeKind {
    ProgramStart,
    Statement,
    Source,
    UnaryOp,
    RepeatedUnaryOp,
    EndOfLine,
}

/// One node of the syntax tree: its kind, the token it was built from
/// (when it carries one), and its children in order.
#[derive(Debug)]
pub struct SyntaxTree {
    pub kind: SyntaxTreeKind,
    pub children: Vec<SyntaxTree>,
    pub token: Option<Token>,
}

/// The mathematical image of a [`SyntaxTree`] node.
#[verifier::ext_equal]
pub ghost struct TreeV {
    pub kind: SyntaxTreeKind,
    pub children: Seq<TreeV>,
    pub token: Option<TokenV>,
}

/// The view of a node: kinds and tokens unchanged, children viewed
/// recursively.
pub open spec fn tree_view(t: SyntaxTree) -> TreeV
    decreases t,
{
    TreeV {
        kind: t.kind,
        children: tree_views(t.children@),
        token: match t.token {
            Option::Some(tok) => Option::Some(tok@),
            Option::None => Option::None,
        },
    }
}

/// The views of a sequence of nodes, in order.
pub open spec fn tree_views(ts: Seq<SyntaxTree>) -> Seq<TreeV>
    decreases ts,
{
    if ts.len() == 0 {
        Seq::empty()
    } else {
        tree_views(ts.drop_last()).push(tree_view(ts.last()))
    }
}

/// `tree_views` maps each node to its view.
pub proof fn lemma_tree_views(ts: Seq<SyntaxTree>)
    ensures
        tree_views(ts).len() == ts.len(),
        forall|i: int| 0 <= i < ts.len() ==> tree_views(ts)[i] == tree_view(ts[i]),
    decreases ts.len(),
{
    if ts.len() > 0 {
        lemma_tree_views(ts.drop_last());
    }
}

impl View for SyntaxTree {
    type V = TreeV;

    open spec fn view(&self) -> TreeV {
        tree_view(*self)
    }
}

/// The view of an optional token.
pub open spec fn opt_token_view(t: Option<Token>) -> Option<TokenV> {
    match t {
        Option::Some(tok) => Option::Some(tok@),
        Option::None => Option::None,
    }
}

/// A well-formed `Source` node: it carries a token of a source kind
/// (a literal or a variable reference).
pub open spec fn wf_source(t: TreeV) -> bool {
    &&& t.kind == SyntaxTreeKind::Source
    &&& match t.token {
        Option::Some(tok) => tok.name == TokenName::Integer || tok.name == TokenName::Float
            || tok.name == TokenName::Letter || tok.name == TokenName::UString || tok.name
            == TokenName::Variable,
        Option::None => false,
    }
}

/// A well-formed `UnaryOp` node: it carries an operator token
/// (increment, decrement, print, or a variable binding).
pub open spec fn wf_unary_op(t: TreeV) -> bool {
    &&& t.kind == SyntaxTreeKind::UnaryOp
    &&& match t.token {
        Option::Some(tok) => tok.name == TokenName::Plus || tok.name == TokenName::Minus
            || tok.name == TokenName::Stdout || tok.name == TokenName::Variable,
        Option::None => false,
    }
}

/// A well-formed operator node: a `UnaryOp`, or a `RepeatedUnaryOp`
/// carrying its repeat-count token and wrapping exactly one operator.
pub open spec fn wf_operator(t: TreeV) -> bool
    decreases t,
{
    if t.kind == SyntaxTreeKind::UnaryOp {
        wf_unary_op(t)
    } else if t.kind == SyntaxTreeKind::RepeatedUnaryOp {
        &&& match t.token {
            Option::Some(tok) => tok.name == TokenName::Repeater,
            Option::None => false,
        }
        &&& t.children.len() == 1
        &&& wf_operator(t.children[0])
    } else {
        false
    }
}

/// A well-formed `EndOfLine` node.
pub open spec fn wf_end_of_line(t: TreeV) -> bool {
    t.kind == SyntaxTreeKind::EndOfLine
}

/// A well-formed `Statement` node: at least two children, the first a
/// `Source`, the last an `EndOfLine`, and operators in between.
pub open spec fn wf_statement(t: TreeV) -> bool {
    &&& t.kind == SyntaxTreeKind::Statement
    &&& t.children.len() >= 2
    &&& wf_source(t.children[0])
    &&& wf_end_of_line(t.children[t.children.len() - 1])
    &&& forall|i: int| 1 <= i < t.children.len() - 1 ==> wf_operator(#[trigger] t.children[i])
}

/// A well-formed program tree: a `ProgramStart` root whose children
/// are all well-formed statements.
pub open spec fn wf_program(t: TreeV) -> bool {
    &&& t.kind == SyntaxTreeKind::ProgramStart
    &&& forall|i: int| 0 <= i < t.children.len() ==> wf_statement(#[trigger] t.children[i])
}

impl SyntaxTree {
    /// An empty program tree.
    pub fn root() -> (r: Self)
        ensures
            r@ == (TreeV {
                kind: SyntaxTreeKind::ProgramStart,
                children: Seq::empty(),
                token: Option::None,
            }),
            wf_program(r@),
    {
        SyntaxTree { kind: SyntaxTreeKind::ProgramStart, children: Vec::new(), token: Option::None }
    }

    /// A leaf node of the given kind, carrying `token`.
    pub fn new(kind: SyntaxTreeKind, token: Option<Token>) -> (r: Self)
        ensures
            r@ == (TreeV { kind, children: Seq::empty(), token: opt_token_view(token) }),
    {
        SyntaxTree { kind, children: Vec::new(), token }
    }

    /// Appends `child` after the existing children.
    pub fn add_child(&mut self, child: SyntaxTree)
        ensures
            final(self)@ == (TreeV {
                kind: old(self)@.kind,
                children: old(self)@.children.push(child@),
                token: old(self)@.token,
            }),
    {
        self.children.push(child);
        proof {
            let s = old(self).children@;
            assert(s.push(child).drop_last() =~= s);
            assert(tree_views(s.push(child)) == tree_views(s).push(tree_view(child)));
            assert(final(self)@.children =~= old(self)@.children.push(child@));
        }
    }

    /// Whether this node is a well-formed operator.
    pub fn is_wf_operator(&self) -> (r: bool)
        ensures
            r == wf_operator(self@),
        decreases *self,
    {
        match self.kind {
            SyntaxTreeKind::UnaryOp => match &self.token {
                Option::Some(tok) => matches!(
                    tok.name,
                    TokenName::Plus
                        | TokenName::Minus
                        | TokenName::Stdout
                        | TokenName::Variable
                ),
                Option::None => false,
            },
            SyntaxTreeKind::RepeatedUnaryOp => {
                let tok_ok = match &self.token {
                    Option::Some(tok) => matches!(tok.name, TokenName::Repeater),
                    Option::None => false,
                };
                proof {
                    lemma_tree_views(self.children@);
                }
                tok_ok && self.children.len() == 1 && self.children[0].is_wf_operator()
            },
            _ => false,
        }
    }

    /// Whether this node is a well-formed statement.
    pub fn is_wf_statement(&self) -> (r: bool)
        ensures
            r == wf_statement(self@),
    {
        proof {
            lemma_tree_views(self.children@);
        }
        if !matches!(self.kind, SyntaxTreeKind::Statement) {
            return false;
        }
        if self.children.len() < 2 {
            return false;
        }
        let first = &self.children[0];
        let source_ok = matches!(first.kind, SyntaxTreeKind::Source) && match &first.token {
            Option::Some(tok) => matches!(
                tok.name,
                TokenName::Integer
                    | TokenName::Float
                    | TokenName::Letter
                    | TokenName::UString
                    | TokenName::Variable
            ),
            Option::None => false,
        };
        if !source_ok {
            return false;
        }
        if !matches!(self.children[self.children.len() - 1].kind, SyntaxTreeKind::EndOfLine) {
            return false;
        }
        let mut i: usize = 1;
        while i < self.children.len() - 1
            invariant
                1 <= i <= self.children.len() - 1,
                self.children.len() >= 2,
                forall|k: int| 1 <= k < i ==> wf_operator(#[trigger] self@.children[k]),
                self@.children.len() == self.children.len(),
                forall|k: int|
                    0 <= k < self.children.len() ==> self@.children[k] == tree_view(
                        self.children@[k],
                    ),
            decreases self.children.len() - i,
        {
            if !self.children[i].is_wf_operator() {
                proof {
                    assert(!wf_operator(self@.children[i as int]));
                    assert(!wf_statement(self@));
                }
                return false;
            }
            i = i + 1;
        }
        true
    }

    /// Whether this tree is a well-formed program: what the
    /// interpreter assumes of its input.
    pub fn is_wf_program(&self) -> (r: bool)
        ensures
            r == wf_program(self@),
    {
        proof {
            lemma_tree_views(self.children@);
        }
        if !matches!(self.kind, SyntaxTreeKind::ProgramStart) {
            return false;
        }
        let mut i: usize = 0;
        while i < self.children.len()
            invariant
                0 <= i <= self.children.len(),
                forall|k: int| 0 <= k < i ==> wf_statement(#[trigger] self@.children[k]),
                self@.children.len() == self.children.len(),
                forall|k: int|
                    0 <= k < self.children.len() ==> self@.children[k] == tree_view(
                        self.children@[k],
                    ),
            decreases self.children.len() - i,
        {
            if !self.children[i].is_wf_statement() {
                proof {
                    assert(!wf_statement(self@.children[i as int]));
                    assert(!wf_program(self@));
                }
                return false;
            }
            i = i + 1;
        }
        true
    }
}

} // verus!
