//! The nodes of a flattened execution plan and their mathematical model.
use vstd::prelude::*;
use std::collections::VecDeque;

verus! {

/// One entry of a flattened execution plan.
#[derive(Debug, PartialEq, Eq)]
pub struct InstructionNode {
    /// The nesting level that this node claims.
    pub stack_depth: u8,
    /// The amount of simulated work requested for this node.
    pub compute_units: u32,
    /// Indices into the account table of the invocation that dispatches this node.
    pub accounts: Vec<u8>,
}

/// What an [`InstructionNode`] holds, as plain mathematical values.
#[verifier::ext_equal]
pub ghost struct NodeModel {
    pub stack_depth: u8,
    pub compute_units: u32,
    pub accounts: Seq<u8>,
}

impl View for InstructionNode {
    type V = NodeModel;

    open spec fn view(&self) -> NodeModel {
        NodeModel {
            stack_depth: self.stack_depth,
            compute_units: self.compute_units,
            accounts: self.accounts@,
        }
    }
}

impl DeepView for InstructionNode {
    type V = NodeModel;

    open spec fn deep_view(&self) -> NodeModel {
        self@
    }
}

impl Clone for InstructionNode {
    fn clone(&self) -> (copy: Self)
        ensures
            copy@ == self@,
    {
        InstructionNode {
            stack_depth: self.stack_depth,
            compute_units: self.compute_units,
            accounts: self.accounts.clone(),
        }
    }
}

/// Taking the first node off a queue takes the first model off its models.
pub proof fn lemma_models_after_pop_front(
    before: VecDeque<InstructionNode>,
    after: VecDeque<InstructionNode>,
)
    requires
        before@.len() > 0,
        after@ == before@.subrange(1, before@.len() as int),
    ensures
        before@[0]@ == before.deep_view()[0],
        after.deep_view() == before.deep_view().skip(1),
{
    let skipped = before.deep_view().skip(1);
    assert forall|i: int| 0 <= i < skipped.len() implies after.deep_view()[i] == skipped[i] by {}
}

/// Putting a node at the back of a queue puts its model at the back of the models.
pub proof fn lemma_models_after_push_back(
    before: VecDeque<InstructionNode>,
    after: VecDeque<InstructionNode>,
    node: InstructionNode,
)
    requires
        after@ == before@.push(node),
    ensures
        after.deep_view() == before.deep_view().push(node@),
{
    let pushed = before.deep_view().push(node@);
    assert forall|i: int| 0 <= i < pushed.len() implies after.deep_view()[i] == pushed[i] by {}
}

/// Putting a branch at the back of a list puts its models at the back of the
/// list's models.
pub proof fn lemma_models_after_push_branch(
    before: Vec<VecDeque<InstructionNode>>,
    after: Vec<VecDeque<InstructionNode>>,
    branch: VecDeque<InstructionNode>,
)
    requires
        after@ == before@.push(branch),
    ensures
        after.deep_view() == before.deep_view().push(branch.deep_view()),
{
    let pushed = before.deep_view().push(branch.deep_view());
    assert forall|i: int| 0 <= i < pushed.len() implies after.deep_view()[i] == pushed[i] by {}
}

} // verus!
