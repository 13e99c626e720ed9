//! Lowering: dependency collection over the validated tree, and the
//! mapping of AST statements to MIR nodes.

use vstd::prelude::*;
use crate::ast::{ast_views, op_count, op_count_stmts, program_wf, stmt_wf, AstNode, AstView};
use crate::mir::{mir_op_count, mir_op_count_list, mir_views, Dependency, MirNode, MirView};
use crate::token::str_eq_lit;

verus! {

/// The runtime symbols one top-level statement needs: a `print` whose
/// operand is an integer literal needs the format constant and the print
/// function; any other `print` only the print function; anything else
/// nothing.  Only top-level statements are scanned.
pub open spec fn spec_deps_of_stmt(a: AstView) -> Seq<Dependency> {
    match a {
        AstView::Print { arg } => {
            if *arg is Int {
                seq![Dependency::IntFmt, Dependency::Printf]
            } else {
                seq![Dependency::Printf]
            }
        },
        _ => Seq::empty(),
    }
}

/// The runtime symbols of a statement sequence, in source order,
/// duplicates kept.
pub open spec fn spec_deps_of_stmts(stmts: Seq<AstView>) -> Seq<Dependency>
    decreases stmts,
{
    if stmts.len() == 0 {
        Seq::empty()
    } else {
        spec_deps_of_stmts(stmts.drop_last()) + spec_deps_of_stmt(stmts.last())
    }
}

/// The runtime symbols of a whole program.
pub open spec fn spec_get_dependencies(a: AstView) -> Seq<Dependency> {
    match a {
        AstView::Program { stmts } => spec_deps_of_stmts(stmts),
        _ => Seq::empty(),
    }
}

/// Collecting the dependency list twice gives the same list.
pub proof fn lemma_dependencies_idempotent(a: AstView, b: AstView)
    requires
        a == b,
    ensures
        spec_get_dependencies(a) == spec_get_dependencies(b),
{
}

/// Appends the runtime symbols of one top-level statement.
fn stmt_deps(stmt: &AstNode, deps: &mut Vec<Dependency>)
    ensures
        final(deps)@ == old(deps)@ + spec_deps_of_stmt(stmt@),
{
    match stmt {
        AstNode::Print(inner) => {
            proof {
                assert(stmt@ == AstView::Print { arg: Box::new((**inner)@) });
            }
            if matches!(&**inner, AstNode::Int(_)) {
                proof {
                    assert((**inner)@ is Int);
                    assert(spec_deps_of_stmt(stmt@) == seq![Dependency::IntFmt, Dependency::Printf]);
                }
                deps.push(Dependency::IntFmt);
                deps.push(Dependency::Printf);
                proof {
                    assert(deps@ =~= old(deps)@ + spec_deps_of_stmt(stmt@));
                }
            } else {
                deps.push(Dependency::Printf);
                proof {
                    assert(deps@ =~= old(deps)@ + spec_deps_of_stmt(stmt@));
                }
            }
        },
        _ => {
            proof {
                assert(deps@ =~= old(deps)@ + spec_deps_of_stmt(stmt@));
            }
        },
    }
}

/// Collects the runtime symbols the program needs, in source order.
///
/// Scans the top-level statements only: a `print` nested inside an
/// arithmetic subexpression is not scanned, mirroring the source
/// behavior this stage documents.
#[verifier::loop_isolation(false)]
pub fn get_dependencies(ast: &AstNode) -> (deps: Vec<Dependency>)
    requires
        ast@ is Program,
    ensures
        deps@ == spec_get_dependencies(ast@),
{
    match ast {
        AstNode::Program(nodes) => {
            let ghost views = ast_views(nodes@);
            proof {
                crate::ast::lemma_ast_views(nodes@);
                assert(views.take(0) =~= Seq::<AstView>::empty());
            }
            let mut deps: Vec<Dependency> = Vec::new();
            let n = nodes.len();
            let mut i: usize = 0;
            while i < n
                invariant
                    i <= n,
                    deps@ == spec_deps_of_stmts(views.take(i as int)),
                decreases n - i,
            {
                proof {
                    assert(views.take(i + 1).drop_last() =~= views.take(i as int));
                    assert(views.take(i + 1).last() == views[i as int]);
                }
                stmt_deps(&nodes[i], &mut deps);
                proof {
                    assert(deps@ =~= spec_deps_of_stmts(views.take(i + 1)));
                }
                i = i + 1;
            }
            proof {
                assert(views.take(n as int) =~= views);
            }
            deps
        },
        _ => {
            // excluded by the precondition: the tree is a program
            proof {
                assert(false);
            }
            Vec::new()
        },
    }
}

/// The MIR node for one well-formed statement: literals map to `I32`,
/// the four operator texts to the four arithmetic nodes, `print` to
/// `Print`.
pub open spec fn spec_lower_node(a: AstView) -> MirView
    decreases a,
{
    match a {
        AstView::Int { val } => MirView::I32 { val },
        AstView::Op { op, left, right } => {
            let l = Box::new(spec_lower_node(*left));
            let r = Box::new(spec_lower_node(*right));
            if op == "+"@ {
                MirView::Add { left: l, right: r }
            } else if op == "-"@ {
                MirView::Sub { left: l, right: r }
            } else if op == "*"@ {
                MirView::Mul { left: l, right: r }
            } else if op == "/"@ {
                MirView::Div { left: l, right: r }
            } else {
                MirView::I32 { val: 0 }
            }
        },
        AstView::Print { arg } => MirView::Print { left: Box::new(spec_lower_node(*arg)) },
        AstView::Program { .. } => MirView::I32 { val: 0 },
    }
}

/// [`spec_lower_node`] over a statement sequence, in order.
pub open spec fn spec_lower_stmts(stmts: Seq<AstView>) -> Seq<MirView>
    decreases stmts,
{
    if stmts.len() == 0 {
        Seq::empty()
    } else {
        spec_lower_stmts(stmts.drop_last()).push(spec_lower_node(stmts.last()))
    }
}

/// The MIR of a whole program: one MIR node per top-level statement.
pub open spec fn spec_lower(a: AstView) -> Seq<MirView> {
    match a {
        AstView::Program { stmts } => spec_lower_stmts(stmts),
        _ => Seq::empty(),
    }
}

/// Lowering keeps the number of binary arithmetic nodes.
pub proof fn lemma_lower_op_count(a: AstView)
    requires
        stmt_wf(a),
    ensures
        mir_op_count(spec_lower_node(a)) == op_count(a),
    decreases a,
{
    match a {
        AstView::Op { op, left, right } => {
            lemma_lower_op_count(*left);
            lemma_lower_op_count(*right);
        },
        AstView::Print { arg } => {
            lemma_lower_op_count(*arg);
        },
        _ => {},
    }
}

/// [`lemma_lower_op_count`], statement by statement.
pub proof fn lemma_lower_stmts_op_count(stmts: Seq<AstView>)
    requires
        forall|i: int| 0 <= i < stmts.len() ==> stmt_wf(#[trigger] stmts[i]),
    ensures
        mir_op_count_list(spec_lower_stmts(stmts)) == op_count_stmts(stmts),
    decreases stmts,
{
    if stmts.len() > 0 {
        assert(forall|i: int|
            0 <= i < stmts.drop_last().len() ==> #[trigger] stmts.drop_last()[i] == stmts[i]);
        lemma_lower_stmts_op_count(stmts.drop_last());
        lemma_lower_op_count(stmts.last());
        let o = spec_lower_stmts(stmts);
        assert(o.drop_last() =~= spec_lower_stmts(stmts.drop_last()));
        assert(o.last() == spec_lower_node(stmts.last()));
    }
}

/// Lowers one well-formed statement.
fn make_middle_ir_node(ast: &AstNode) -> (m: MirNode)
    requires
        stmt_wf(ast@),
    ensures
        m@ == spec_lower_node(ast@),
    decreases ast,
{
    match ast {
        AstNode::Int(n) => MirNode::I32(*n),
        AstNode::Op { left, op, right } => {
            let l = Box::new(make_middle_ir_node(&**left));
            let r = Box::new(make_middle_ir_node(&**right));
            if str_eq_lit(op, "+") {
                MirNode::Add { left: l, right: r }
            } else if str_eq_lit(op, "-") {
                MirNode::Sub { left: l, right: r }
            } else if str_eq_lit(op, "*") {
                MirNode::Mul { left: l, right: r }
            } else if str_eq_lit(op, "/") {
                MirNode::Div { left: l, right: r }
            } else {
                // excluded by the precondition: a well-formed statement
                // carries one of the four operator texts
                proof {
                    assert(false);
                }
                MirNode::I32(0)
            }
        },
        AstNode::Print(arg) => MirNode::Print { left: Box::new(make_middle_ir_node(&**arg)) },
        AstNode::Program(_) => {
            // excluded by the precondition: no program nests in a statement
            proof {
                assert(false);
            }
            MirNode::I32(0)
        },
    }
}

/// Lowers the whole program: one MIR node per top-level statement.
#[verifier::loop_isolation(false)]
pub fn make_middle_ir(ast: AstNode) -> (mir: Vec<MirNode>)
    requires
        program_wf(ast@),
    ensures
        mir_views(mir@) == spec_lower(ast@),
{
    match &ast {
        AstNode::Program(nodes) => {
            let ghost views = ast_views(nodes@);
            proof {
                assert(nodes == ast->Program_0);
                assert(ast@ == AstView::Program { stmts: ast_views(nodes@) });
                crate::ast::lemma_ast_views(nodes@);
                assert(views.take(0) =~= Seq::<AstView>::empty());
                assert(mir_views(Seq::<MirNode>::empty()) =~= Seq::<MirView>::empty());
            }
            let mut out: Vec<MirNode> = Vec::new();
            let n = nodes.len();
            let mut i: usize = 0;
            while i < n
                invariant
                    i <= n,
                    out@.len() == i as int,
                    mir_views(out@) == spec_lower_stmts(views.take(i as int)),
                decreases n - i,
            {
                proof {
                    crate::ast::lemma_program_stmt_wf(ast@, i as int);
                    assert(views == ast@->Program_stmts);
                    assert(stmt_wf(views[i as int]));
                    assert(views.take(i + 1).drop_last() =~= views.take(i as int));
                    assert(views.take(i + 1).last() == views[i as int]);
                }
                let node = make_middle_ir_node(&nodes[i]);
                proof {
                    assert(out@.push(node).drop_last() =~= out@);
                    assert(mir_views(out@.push(node)) == mir_views(out@).push(node@));
                }
                out.push(node);
                i = i + 1;
            }
            proof {
                assert(views.take(n as int) =~= views);
            }
            out
        },
        _ => {
            // excluded by the precondition: the tree is a program
            proof {
                assert(false);
            }
            Vec::new()
        },
    }
}

} // verus!
