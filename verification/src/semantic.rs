//! The semantic analyzer: a type-consistency walk over the tree.
//!
//! Only one type exists today, so the equality check between the two
//! operands of a binary expression can never fail on trees whose operands
//! have types at all; it is kept as the enforcement point for future
//! types.  A node shape that the type system cannot type — a compound
//! operand, or a nested program — is reported as an unsupported node.

use vstd::prelude::*;
use crate::ast::{ast_views, AstNode, AstView};
use crate::parser_error::{empty_span, make_empty_span};
use crate::semantic_error::{SemanticError, SemanticErrorView};
use crate::types::Type;

verus! {

/// The type of a node reached directly: an integer leaf has type `Int`,
/// and every other shape is unsupported.
pub open spec fn spec_node_type(n: AstView) -> Result<Type, SemanticErrorView> {
    match n {
        AstView::Int { .. } => Ok(Type::Int),
        _ => Err(SemanticErrorView::UnsupportedASTNode { node: n, span: empty_span() }),
    }
}

/// Are the two types the same?
pub open spec fn spec_types_equal(a: Type, b: Type) -> bool {
    match (a, b) {
        (Type::Int, Type::Int) => true,
    }
}

/// The analysis of a single statement or subexpression.
pub open spec fn spec_analyze_node(n: AstView) -> Result<(), SemanticErrorView>
    decreases n,
{
    match n {
        AstView::Int { .. } => Ok(()),
        AstView::Op { left, right, .. } => {
            match spec_analyze_node(*left) {
                Err(e) => Err(e),
                Ok(_) => match spec_analyze_node(*right) {
                    Err(e) => Err(e),
                    Ok(_) => match spec_node_type(*left) {
                        Err(e) => Err(e),
                        Ok(lt) => match spec_node_type(*right) {
                            Err(e) => Err(e),
                            Ok(rt) => {
                                if spec_types_equal(lt, rt) {
                                    Ok(())
                                } else {
                                    Err(
                                        SemanticErrorView::TypeMismatch {
                                            left: lt,
                                            right: rt,
                                            span: empty_span(),
                                        },
                                    )
                                }
                            },
                        },
                    },
                },
            }
        },
        AstView::Print { arg } => spec_analyze_node(*arg),
        AstView::Program { .. } => Err(
            SemanticErrorView::UnsupportedASTNode { node: n, span: empty_span() },
        ),
    }
}

/// The analysis of the statements of a program, stopping at the first
/// error.
pub open spec fn spec_analyze_stmts(stmts: Seq<AstView>) -> Result<(), SemanticErrorView>
    decreases stmts.len(),
{
    if stmts.len() == 0 {
        Ok(())
    } else {
        match spec_analyze_node(stmts[0]) {
            Err(e) => Err(e),
            Ok(_) => spec_analyze_stmts(stmts.drop_first()),
        }
    }
}

/// The whole analysis: every statement of a program; any other root node
/// passes vacuously.
pub open spec fn spec_analyze(ast: AstView) -> Result<(), SemanticErrorView> {
    match ast {
        AstView::Program { stmts } => spec_analyze_stmts(stmts),
        _ => Ok(()),
    }
}

/// The type-consistency checker.
pub struct SemanticAnalyzer;

impl SemanticAnalyzer {
    /// A fresh analyzer.
    pub fn new() -> (s: SemanticAnalyzer) {
        SemanticAnalyzer
    }

    /// The type of a node reached directly; see [`spec_node_type`].
    fn get_node_type(&self, node: &AstNode) -> (r: Result<Type, SemanticError>)
        ensures
            ({
                match r {
                    Ok(t) => spec_node_type(node@) == Ok::<Type, SemanticErrorView>(t),
                    Err(e) => spec_node_type(node@) == Err::<Type, SemanticErrorView>(e@),
                }
            }),
    {
        match node {
            AstNode::Int(_) => Ok(Type::Int),
            _ => Err(
                SemanticError::UnsupportedASTNode { node: node.clone(), span: make_empty_span() },
            ),
        }
    }

    /// Compares `types1` with the type of `value`.
    fn are_types_equal(&mut self, types1: &Type, value: &AstNode) -> (r: Result<
        bool,
        SemanticError,
    >)
        ensures
            ({
                match r {
                    Ok(b) => spec_node_type(value@) is Ok && b == spec_types_equal(
                        *types1,
                        spec_node_type(value@)->Ok_0,
                    ),
                    Err(e) => spec_node_type(value@) == Err::<Type, SemanticErrorView>(e@),
                }
            }),
    {
        let t2 = match self.get_node_type(value) {
            Ok(t) => t,
            Err(e) => {
                return Err(e);
            },
        };
        let equal = match (*types1, t2) {
            (Type::Int, Type::Int) => true,
        };
        Ok(equal)
    }

    /// Analyzes one statement or subexpression; see [`spec_analyze_node`].
    fn analyze_node(&mut self, node: &AstNode) -> (r: Result<(), SemanticError>)
        ensures
            ({
                match r {
                    Ok(_) => spec_analyze_node(node@) == Ok::<(), SemanticErrorView>(()),
                    Err(e) => spec_analyze_node(node@) == Err::<(), SemanticErrorView>(e@),
                }
            }),
        decreases node,
    {
        match node {
            AstNode::Int(_) => Ok(()),
            AstNode::Op { left, right, .. } => {
                match self.analyze_node(&**left) {
                    Err(e) => {
                        return Err(e);
                    },
                    Ok(_) => {},
                }
                match self.analyze_node(&**right) {
                    Err(e) => {
                        return Err(e);
                    },
                    Ok(_) => {},
                }
                let lt = match self.get_node_type(&**left) {
                    Ok(t) => t,
                    Err(e) => {
                        return Err(e);
                    },
                };
                let equal = match self.are_types_equal(&lt, &**right) {
                    Ok(b) => b,
                    Err(e) => {
                        return Err(e);
                    },
                };
                if !equal {
                    let rt = match self.get_node_type(&**right) {
                        Ok(t) => t,
                        Err(e) => {
                            return Err(e);
                        },
                    };
                    return Err(
                        SemanticError::TypeMismatch { left: lt, right: rt, span: make_empty_span() },
                    );
                }
                Ok(())
            },
            AstNode::Print(arg) => self.analyze_node(&**arg),
            AstNode::Program(_) => Err(
                SemanticError::UnsupportedASTNode { node: node.clone(), span: make_empty_span() },
            ),
        }
    }

    /// Analyzes every statement of a program, stopping at the first
    /// error; see [`spec_analyze`].
    #[verifier::loop_isolation(false)]
    pub fn analyze(&mut self, ast: &AstNode) -> (r: Result<(), SemanticError>)
        ensures
            ({
                match r {
                    Ok(_) => spec_analyze(ast@) == Ok::<(), SemanticErrorView>(()),
                    Err(e) => spec_analyze(ast@) == Err::<(), SemanticErrorView>(e@),
                }
            }),
    {
        if let AstNode::Program(nodes) = ast {
            let ghost views = ast_views(nodes@);
            proof {
                crate::ast::lemma_ast_views(nodes@);
                assert(views.skip(0) =~= views);
            }
            let n = nodes.len();
            let mut i: usize = 0;
            while i < n
                invariant
                    i <= n,
                    spec_analyze(ast@) == spec_analyze_stmts(views.skip(i as int)),
                decreases n - i,
            {
                match self.analyze_node(&nodes[i]) {
                    Err(e) => {
                        proof {
                            assert(views.skip(i as int)[0] == views[i as int]);
                        }
                        return Err(e);
                    },
                    Ok(_) => {
                        proof {
                            assert(views.skip(i as int)[0] == views[i as int]);
                            assert(views.skip(i as int).drop_first() =~= views.skip(i + 1));
                        }
                    },
                }
                i = i + 1;
            }
            proof {
                assert(views.skip(n as int) =~= Seq::<AstView>::empty());
            }
            Ok(())
        } else {
            Ok(())
        }
    }
}

} // verus!
