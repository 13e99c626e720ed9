//! The abstract syntax tree and its constant-folding optimizer.
//!
//! An [`AstNode`] is a tree: a `Program` of statements, integer leaves,
//! binary operator nodes carrying the operator's literal text, and `print`
//! nodes.  The optimizer folds constant subexpressions bottom-up using
//! 32-bit wrapping arithmetic; a division is folded only when the divisor
//! is a nonzero constant and the quotient is representable, so a division
//! by zero is deliberately left for the generated program's runtime.

use vstd::prelude::*;
use crate::numtext::{i32_to_string, int_text};
use crate::token::str_eq_lit;

verus! {

/// Mathematical value of an [`AstNode`].
#[verifier::ext_equal]
pub ghost enum AstView {
    Program { stmts: Seq<AstView> },
    Int { val: i32 },
    Op { op: Seq<char>, left: Box<AstView>, right: Box<AstView> },
    Print { arg: Box<AstView> },
}

/// A node of the abstract syntax tree.
#[derive(Debug, PartialEq)]
pub enum AstNode {
    /// Root node: the ordered list of top-level statements.
    Program(Vec<AstNode>),
    /// An integer literal.
    Int(i32),
    /// A binary expression; `op` is the operator's literal text.
    Op { left: Box<AstNode>, op: String, right: Box<AstNode> },
    /// A `print` statement.
    Print(Box<AstNode>),
}

/// The views of a sequence of AST nodes, element by element.
pub open spec fn ast_views(s: Seq<AstNode>) -> Seq<AstView>
    decreases s,
{
    if s.len() == 0 {
        Seq::empty()
    } else {
        ast_views(s.drop_last()).push(s.last()@)
    }
}

impl View for AstNode {
    type V = AstView;

    open spec fn view(&self) -> AstView
        decreases self,
    {
        match self {
            AstNode::Program(stmts) => AstView::Program { stmts: ast_views(stmts@) },
            AstNode::Int(n) => AstView::Int { val: *n },
            AstNode::Op { left, op, right } => AstView::Op {
                op: op@,
                left: Box::new((**left)@),
                right: Box::new((**right)@),
            },
            AstNode::Print(arg) => AstView::Print { arg: Box::new((**arg)@) },
        }
    }
}

/// [`ast_views`] maps the sequence element by element.
pub proof fn lemma_ast_views(s: Seq<AstNode>)
    ensures
        ast_views(s).len() == s.len(),
        forall|i: int| 0 <= i < s.len() ==> #[trigger] ast_views(s)[i] == s[i]@,
    decreases s.len(),
{
    if s.len() > 0 {
        lemma_ast_views(s.drop_last());
        assert(ast_views(s) == ast_views(s.drop_last()).push(s.last()@));
        assert(ast_views(s.drop_last()).len() == s.len() - 1);
        assert forall|i: int| 0 <= i < s.len() implies #[trigger] ast_views(s)[i] == s[i]@ by {
            if i < s.len() - 1 {
                assert(s.drop_last()[i] == s[i]);
                assert(ast_views(s)[i] == ast_views(s.drop_last())[i]);
            } else {
                assert(ast_views(s)[i] == s.last()@);
            }
        }
    }
}

impl Clone for AstNode {
    #[verifier::loop_isolation(false)]
    fn clone(&self) -> (r: Self)
        ensures
            r@ == self@,
        decreases self,
    {
        match self {
            AstNode::Program(stmts) => {
                let mut out: Vec<AstNode> = Vec::new();
                let n = stmts.len();
                let mut i: usize = 0;
                while i < n
                    invariant
                        i <= n,
                        out@.len() == i as int,
                        forall|k: int| 0 <= k < i ==> #[trigger] out@[k]@ == stmts@[k]@,
                    decreases n - i,
                {
                    let c = stmts[i].clone();
                    out.push(c);
                    i = i + 1;
                }
                proof {
                    lemma_ast_views(out@);
                    lemma_ast_views(stmts@);
                    assert(ast_views(out@) =~= ast_views(stmts@));
                }
                AstNode::Program(out)
            },
            AstNode::Int(n) => AstNode::Int(*n),
            AstNode::Op { left, op, right } => AstNode::Op {
                left: Box::new((**left).clone()),
                op: op.clone(),
                right: Box::new((**right).clone()),
            },
            AstNode::Print(arg) => AstNode::Print(Box::new((**arg).clone())),
        }
    }
}

/// Folds one operator application once both children are optimized:
/// `+ - *` fold with 32-bit wrapping arithmetic, `/` folds only when the
/// divisor is a nonzero constant and the quotient is representable, and
/// any other operator text leaves the node in place.
pub open spec fn fold_op(op: Seq<char>, l: AstView, r: AstView) -> AstView {
    match (l, r) {
        (AstView::Int { val: a }, AstView::Int { val: b }) => {
            if op == "+"@ {
                AstView::Int { val: a.wrapping_add(b) }
            } else if op == "-"@ {
                AstView::Int { val: a.wrapping_sub(b) }
            } else if op == "*"@ {
                AstView::Int { val: a.wrapping_mul(b) }
            } else if op == "/"@ {
                if b != 0 {
                    match a.checked_div(b) {
                        Some(q) => AstView::Int { val: q },
                        None => AstView::Op { op, left: Box::new(l), right: Box::new(r) },
                    }
                } else {
                    AstView::Op { op, left: Box::new(l), right: Box::new(r) }
                }
            } else {
                AstView::Op { op, left: Box::new(l), right: Box::new(r) }
            }
        },
        _ => AstView::Op { op, left: Box::new(l), right: Box::new(r) },
    }
}

/// The optimizer as a mathematical function: a post-order walk that
/// rewrites every node whose children have become integer leaves.
pub open spec fn spec_optimize(t: AstView) -> AstView
    decreases t,
{
    match t {
        AstView::Program { stmts } => AstView::Program { stmts: spec_optimize_stmts(stmts) },
        AstView::Int { .. } => t,
        AstView::Op { op, left, right } => fold_op(op, spec_optimize(*left), spec_optimize(*right)),
        AstView::Print { arg } => AstView::Print { arg: Box::new(spec_optimize(*arg)) },
    }
}

/// [`spec_optimize`] applied to every statement of a program.
pub open spec fn spec_optimize_stmts(stmts: Seq<AstView>) -> Seq<AstView>
    decreases stmts,
{
    if stmts.len() == 0 {
        Seq::empty()
    } else {
        spec_optimize_stmts(stmts.drop_last()).push(spec_optimize(stmts.last()))
    }
}

/// When two statement sequences are pointwise related by [`spec_optimize`],
/// the second is [`spec_optimize_stmts`] of the first.
proof fn lemma_optimize_stmts_pointwise(stmts: Seq<AstView>, out: Seq<AstView>)
    requires
        out.len() == stmts.len(),
        forall|k: int| 0 <= k < stmts.len() ==> #[trigger] out[k] == spec_optimize(stmts[k]),
    ensures
        out == spec_optimize_stmts(stmts),
    decreases stmts.len(),
{
    if stmts.len() == 0 {
        assert(out =~= spec_optimize_stmts(stmts));
    } else {
        lemma_optimize_stmts_pointwise(stmts.drop_last(), out.drop_last());
        assert(out =~= spec_optimize_stmts(stmts.drop_last()).push(spec_optimize(stmts.last())));
    }
}

/// A statement the later stages can lower: no nested program, and only
/// the four arithmetic operator texts.
pub open spec fn stmt_wf(a: AstView) -> bool
    decreases a,
{
    match a {
        AstView::Program { .. } => false,
        AstView::Int { .. } => true,
        AstView::Op { op, left, right } => (op == "+"@ || op == "-"@ || op == "*"@ || op == "/"@)
            && stmt_wf(*left) && stmt_wf(*right),
        AstView::Print { arg } => stmt_wf(*arg),
    }
}

/// A tree the parser can have produced: a `Program` of well-formed
/// statements.
pub open spec fn program_wf(a: AstView) -> bool {
    match a {
        AstView::Program { stmts } => forall|i: int|
            0 <= i < stmts.len() ==> stmt_wf(#[trigger] stmts[i]),
        _ => false,
    }
}

/// Every statement of a well-formed program is well-formed.
pub proof fn lemma_program_stmt_wf(a: AstView, i: int)
    requires
        program_wf(a),
        a is Program,
        0 <= i < a->Program_stmts.len(),
    ensures
        stmt_wf(a->Program_stmts[i]),
{
    match a {
        AstView::Program { stmts } => {
            assert(stmt_wf(stmts[i]));
        },
        _ => {},
    }
}

/// The statements of a well-formed program, as one quantified fact.
pub proof fn lemma_program_wf_stmts(a: AstView)
    requires
        program_wf(a),
        a is Program,
    ensures
        forall|i: int|
            0 <= i < a->Program_stmts.len() ==> stmt_wf(#[trigger] a->Program_stmts[i]),
{
    assert forall|i: int|
        0 <= i < a->Program_stmts.len() implies stmt_wf(#[trigger] a->Program_stmts[i]) by {
        lemma_program_stmt_wf(a, i);
    }
}

/// Number of binary operator nodes in a tree.
pub open spec fn op_count(a: AstView) -> nat
    decreases a,
{
    match a {
        AstView::Program { stmts } => op_count_stmts(stmts),
        AstView::Int { .. } => 0,
        AstView::Op { left, right, .. } => 1 + op_count(*left) + op_count(*right),
        AstView::Print { arg } => op_count(*arg),
    }
}

/// Number of binary operator nodes in a statement sequence.
pub open spec fn op_count_stmts(stmts: Seq<AstView>) -> nat
    decreases stmts,
{
    if stmts.len() == 0 {
        0
    } else {
        op_count_stmts(stmts.drop_last()) + op_count(stmts.last())
    }
}

/// Folding preserves well-formedness and never adds operators.
pub proof fn lemma_optimize_wf(t: AstView)
    requires
        stmt_wf(t),
    ensures
        stmt_wf(spec_optimize(t)),
        op_count(spec_optimize(t)) <= op_count(t),
    decreases t,
{
    match t {
        AstView::Op { op, left, right } => {
            lemma_optimize_wf(*left);
            lemma_optimize_wf(*right);
        },
        AstView::Print { arg } => {
            lemma_optimize_wf(*arg);
        },
        _ => {},
    }
}

/// [`lemma_optimize_wf`], statement by statement.
pub proof fn lemma_optimize_stmts_wf(stmts: Seq<AstView>)
    requires
        forall|i: int| 0 <= i < stmts.len() ==> stmt_wf(#[trigger] stmts[i]),
    ensures
        spec_optimize_stmts(stmts).len() == stmts.len(),
        forall|i: int|
            0 <= i < stmts.len() ==> stmt_wf(#[trigger] spec_optimize_stmts(stmts)[i]),
        op_count_stmts(spec_optimize_stmts(stmts)) <= op_count_stmts(stmts),
    decreases stmts,
{
    if stmts.len() > 0 {
        assert(forall|i: int|
            0 <= i < stmts.drop_last().len() ==> #[trigger] stmts.drop_last()[i] == stmts[i]);
        lemma_optimize_stmts_wf(stmts.drop_last());
        lemma_optimize_wf(stmts.last());
        let o = spec_optimize_stmts(stmts);
        assert(o == spec_optimize_stmts(stmts.drop_last()).push(spec_optimize(stmts.last())));
        assert(o.drop_last() =~= spec_optimize_stmts(stmts.drop_last()));
        assert(o.last() == spec_optimize(stmts.last()));
        assert(op_count_stmts(o) == op_count_stmts(o.drop_last()) + op_count(o.last()));
        assert forall|i: int| 0 <= i < stmts.len() implies stmt_wf(
            #[trigger] spec_optimize_stmts(stmts)[i],
        ) by {
            if i < stmts.len() - 1 {
                assert(o[i] == spec_optimize_stmts(stmts.drop_last())[i]);
            } else {
                assert(o[i] == spec_optimize(stmts.last()));
            }
        }
    }
}

/// Folding a well-formed program gives a well-formed program with no
/// more operators.
pub proof fn lemma_optimize_program_wf(a: AstView)
    requires
        program_wf(a),
    ensures
        program_wf(spec_optimize(a)),
        op_count(spec_optimize(a)) <= op_count(a),
{
    match a {
        AstView::Program { stmts } => {
            lemma_optimize_stmts_wf(stmts);
        },
        _ => {},
    }
}

/// A subtree whose leaves are all integer literals and whose only
/// operators are `+ - *`.
pub open spec fn fully_foldable(t: AstView) -> bool
    decreases t,
{
    match t {
        AstView::Int { .. } => true,
        AstView::Op { op, left, right } => (op == "+"@ || op == "-"@ || op == "*"@)
            && fully_foldable(*left) && fully_foldable(*right),
        _ => false,
    }
}

/// After optimization, any subtree built from integer leaves and the
/// operators `+ - *` has become a single integer leaf.
pub proof fn lemma_full_folding(t: AstView)
    requires
        fully_foldable(t),
    ensures
        spec_optimize(t) is Int,
    decreases t,
{
    match t {
        AstView::Op { op, left, right } => {
            lemma_full_folding(*left);
            lemma_full_folding(*right);
        },
        _ => {},
    }
}

/// The optimizer is idempotent: folding an already-folded tree changes
/// nothing.
pub proof fn lemma_optimize_idempotent(t: AstView)
    ensures
        spec_optimize(spec_optimize(t)) == spec_optimize(t),
    decreases t,
{
    match t {
        AstView::Program { stmts } => {
            lemma_optimize_stmts_idempotent(stmts);
        },
        AstView::Int { .. } => {},
        AstView::Op { op, left, right } => {
            lemma_optimize_idempotent(*left);
            lemma_optimize_idempotent(*right);
        },
        AstView::Print { arg } => {
            lemma_optimize_idempotent(*arg);
        },
    }
}

/// [`lemma_optimize_idempotent`], statement by statement.
proof fn lemma_optimize_stmts_idempotent(stmts: Seq<AstView>)
    ensures
        spec_optimize_stmts(spec_optimize_stmts(stmts)) == spec_optimize_stmts(stmts),
    decreases stmts,
{
    if stmts.len() == 0 {
        assert(spec_optimize_stmts(spec_optimize_stmts(stmts)) =~= spec_optimize_stmts(stmts));
    } else {
        lemma_optimize_stmts_idempotent(stmts.drop_last());
        lemma_optimize_idempotent(stmts.last());
        let once = spec_optimize_stmts(stmts);
        assert(once.drop_last() =~= spec_optimize_stmts(stmts.drop_last()));
        assert(once.last() == spec_optimize(stmts.last()));
        assert(spec_optimize_stmts(once) =~= once);
    }
}

/// Rebuilds `node` with every constant subexpression folded.
#[verifier::loop_isolation(false)]
fn optimize_node(node: &AstNode) -> (r: AstNode)
    ensures
        r@ == spec_optimize(node@),
    decreases node,
{
    match node {
        AstNode::Program(stmts) => {
            let mut out: Vec<AstNode> = Vec::new();
            let n = stmts.len();
            let mut i: usize = 0;
            while i < n
                invariant
                    i <= n,
                    out@.len() == i as int,
                    forall|k: int| 0 <= k < i ==> #[trigger] out@[k]@ == spec_optimize(stmts@[k]@),
                decreases n - i,
            {
                let folded = optimize_node(&stmts[i]);
                out.push(folded);
                i = i + 1;
            }
            proof {
                lemma_ast_views(out@);
                lemma_ast_views(stmts@);
                lemma_optimize_stmts_pointwise(ast_views(stmts@), ast_views(out@));
            }
            AstNode::Program(out)
        },
        AstNode::Int(n) => AstNode::Int(*n),
        AstNode::Op { left, op, right } => {
            let l = optimize_node(&**left);
            let r = optimize_node(&**right);
            fold_node(op, l, r)
        },
        AstNode::Print(arg) => AstNode::Print(Box::new(optimize_node(&**arg))),
    }
}

/// Executable counterpart of [`fold_op`] on already-optimized children.
fn fold_node(op: &String, l: AstNode, r: AstNode) -> (folded: AstNode)
    ensures
        folded@ == fold_op(op@, l@, r@),
{
    let both_int = matches!(l, AstNode::Int(_)) && matches!(r, AstNode::Int(_));
    if both_int {
        let a: i32 = if let AstNode::Int(a) = l {
            a
        } else {
            0
        };
        let b: i32 = if let AstNode::Int(b) = r {
            b
        } else {
            0
        };
        if str_eq_lit(op, "+") {
            AstNode::Int(a.wrapping_add(b))
        } else if str_eq_lit(op, "-") {
            AstNode::Int(a.wrapping_sub(b))
        } else if str_eq_lit(op, "*") {
            AstNode::Int(a.wrapping_mul(b))
        } else if str_eq_lit(op, "/") {
            if b != 0 {
                match a.checked_div(b) {
                    Some(q) => AstNode::Int(q),
                    None => AstNode::Op {
                        left: Box::new(AstNode::Int(a)),
                        op: op.clone(),
                        right: Box::new(AstNode::Int(b)),
                    },
                }
            } else {
                AstNode::Op {
                    left: Box::new(AstNode::Int(a)),
                    op: op.clone(),
                    right: Box::new(AstNode::Int(b)),
                }
            }
        } else {
            AstNode::Op {
                left: Box::new(AstNode::Int(a)),
                op: op.clone(),
                right: Box::new(AstNode::Int(b)),
            }
        }
    } else {
        AstNode::Op { left: Box::new(l), op: op.clone(), right: Box::new(r) }
    }
}

/// The display text of a tree: literals as decimal text, binary
/// expressions parenthesized with their operator text, `print` prefixed.
pub open spec fn ast_text(a: AstView) -> Seq<char>
    decreases a,
{
    match a {
        AstView::Program { .. } => "program"@,
        AstView::Int { val } => int_text(val as int),
        AstView::Op { op, left, right } => "("@ + ast_text(*left) + " "@ + op + " "@ + ast_text(
            *right,
        ) + ")"@,
        AstView::Print { arg } => "print "@ + ast_text(*arg),
    }
}

/// Renders a tree as its display text; see [`ast_text`].
pub fn ast_to_string(a: &AstNode) -> (r: String)
    ensures
        r@ == ast_text(a@),
    decreases a,
{
    match a {
        AstNode::Program(_) => String::from_str("program"),
        AstNode::Int(n) => i32_to_string(*n),
        AstNode::Op { left, op, right } => {
            let lt = ast_to_string(&**left);
            let rt = ast_to_string(&**right);
            let mut s = String::from_str("(");
            s.append(lt.as_str());
            s.append(" ");
            s.append(op.as_str());
            s.append(" ");
            s.append(rt.as_str());
            s.append(")");
            proof {
                assert(s@ =~= ast_text(a@));
            }
            s
        },
        AstNode::Print(arg) => {
            let inner = ast_to_string(&**arg);
            let mut s = String::from_str("print ");
            s.append(inner.as_str());
            proof {
                assert(s@ =~= ast_text(a@));
            }
            s
        },
    }
}

impl AstNode {
    /// Folds every constant subexpression of the tree in place.
    ///
    /// After the call, any subtree built from integer leaves and the
    /// operators `+ - *` is a single integer leaf; a division is folded
    /// only when its divisor is a nonzero constant and its quotient is
    /// representable.
    pub fn optimize(&mut self)
        ensures
            final(self)@ == spec_optimize(old(self)@),
    {
        let folded = optimize_node(self);
        *self = folded;
    }
}

} // verus!
