//! The middle intermediate representation: a tree shaped like the AST
//! but keyed by target instruction, plus the external runtime symbols a
//! generated program needs.

use vstd::prelude::*;

verus! {

/// An external runtime symbol or constant the generated program needs
/// declared.
#[derive(Debug, Clone, Copy, PartialEq, Eq, Structural)]
pub enum Dependency {
    /// The C variadic print function.
    Printf,
    /// The integer format-string constant.
    IntFmt,
}

/// Mathematical value of a [`MirNode`].
#[verifier::ext_equal]
pub ghost enum MirView {
    I32 { val: i32 },
    Add { left: Box<MirView>, right: Box<MirView> },
    Sub { left: Box<MirView>, right: Box<MirView> },
    Mul { left: Box<MirView>, right: Box<MirView> },
    Div { left: Box<MirView>, right: Box<MirView> },
    Print { left: Box<MirView> },
}

/// A node of the middle intermediate representation.
#[derive(Debug, PartialEq)]
pub enum MirNode {
    I32(i32),
    Add { left: Box<MirNode>, right: Box<MirNode> },
    Sub { left: Box<MirNode>, right: Box<MirNode> },
    Mul { left: Box<MirNode>, right: Box<MirNode> },
    Div { left: Box<MirNode>, right: Box<MirNode> },
    Print { left: Box<MirNode> },
}

impl View for MirNode {
    type V = MirView;

    open spec fn view(&self) -> MirView
        decreases self,
    {
        match self {
            MirNode::I32(n) => MirView::I32 { val: *n },
            MirNode::Add { left, right } => MirView::Add {
                left: Box::new((**left)@),
                right: Box::new((**right)@),
            },
            MirNode::Sub { left, right } => MirView::Sub {
                left: Box::new((**left)@),
                right: Box::new((**right)@),
            },
            MirNode::Mul { left, right } => MirView::Mul {
                left: Box::new((**left)@),
                right: Box::new((**right)@),
            },
            MirNode::Div { left, right } => MirView::Div {
                left: Box::new((**left)@),
                right: Box::new((**right)@),
            },
            MirNode::Print { left } => MirView::Print { left: Box::new((**left)@) },
        }
    }
}

/// The views of a sequence of MIR nodes, element by element.
pub open spec fn mir_views(s: Seq<MirNode>) -> Seq<MirView>
    decreases s,
{
    if s.len() == 0 {
        Seq::empty()
    } else {
        mir_views(s.drop_last()).push(s.last()@)
    }
}

/// [`mir_views`] maps the sequence element by element.
pub proof fn lemma_mir_views(s: Seq<MirNode>)
    ensures
        mir_views(s).len() == s.len(),
        forall|i: int| 0 <= i < s.len() ==> #[trigger] mir_views(s)[i] == s[i]@,
    decreases s.len(),
{
    if s.len() > 0 {
        lemma_mir_views(s.drop_last());
        assert(mir_views(s) == mir_views(s.drop_last()).push(s.last()@));
        assert forall|i: int| 0 <= i < s.len() implies #[trigger] mir_views(s)[i] == s[i]@ by {
            if i < s.len() - 1 {
                assert(s.drop_last()[i] == s[i]);
                assert(mir_views(s)[i] == mir_views(s.drop_last())[i]);
            } else {
                assert(mir_views(s)[i] == s.last()@);
            }
        }
    }
}

/// Number of binary arithmetic nodes in a MIR tree: the number of
/// virtual registers its code needs.
pub open spec fn mir_op_count(m: MirView) -> nat
    decreases m,
{
    match m {
        MirView::I32 { .. } => 0,
        MirView::Add { left, right } => 1 + mir_op_count(*left) + mir_op_count(*right),
        MirView::Sub { left, right } => 1 + mir_op_count(*left) + mir_op_count(*right),
        MirView::Mul { left, right } => 1 + mir_op_count(*left) + mir_op_count(*right),
        MirView::Div { left, right } => 1 + mir_op_count(*left) + mir_op_count(*right),
        MirView::Print { left } => mir_op_count(*left),
    }
}

/// Number of binary arithmetic nodes in a MIR sequence.
pub open spec fn mir_op_count_list(ms: Seq<MirView>) -> nat
    decreases ms,
{
    if ms.len() == 0 {
        0
    } else {
        mir_op_count_list(ms.drop_last()) + mir_op_count(ms.last())
    }
}

/// A prefix of the sequence never needs more registers than the whole.
pub proof fn lemma_mir_op_count_prefix(ms: Seq<MirView>, j: int)
    requires
        0 <= j <= ms.len(),
    ensures
        mir_op_count_list(ms.take(j)) <= mir_op_count_list(ms),
    decreases ms.len() - j,
{
    if j < ms.len() {
        assert(ms.take(j + 1).drop_last() =~= ms.take(j));
        assert(ms.take(j + 1).last() == ms[j]);
        lemma_mir_op_count_prefix(ms, j + 1);
    } else {
        assert(ms.take(j) =~= ms);
    }
}

} // verus!
