//! Rebuilding the tree below a root from the depths of a flattened sequence.
//!
//! The first node of a sequence is the root. The nodes after it fall into
//! branches: a branch is a head followed by the whole run of nodes that lie
//! deeper than the head, and the node that ends one branch is the head of the
//! next.
use vstd::prelude::*;
use std::collections::VecDeque;
use crate::failure::{assert_with_msg, ErrorKind, Failure};
use crate::node::{
    lemma_models_after_pop_front, lemma_models_after_push_back, lemma_models_after_push_branch,
    InstructionNode, NodeModel,
};

verus! {

/// The node at `i` is not deeper than the root.
pub open spec fn not_below_root(s: Seq<NodeModel>, i: int) -> bool {
    s[i].stack_depth <= s[0].stack_depth
}

/// The node at `i` lies more than one level below the node before it, and the
/// node before it is not the root.
pub open spec fn skips_level(s: Seq<NodeModel>, i: int) -> bool {
    i >= 2 && s[i].stack_depth > s[i - 1].stack_depth + 1
}

/// The depths of `s` describe a tree below its first node: every later node is
/// deeper than the root, and from one node after the root to the next the depth
/// grows by one level at most. A sequence of no node or one node is well formed.
pub open spec fn well_formed(s: Seq<NodeModel>) -> bool {
    forall|i: int| 1 <= i < s.len() ==> !not_below_root(s, i) && !skips_level(s, i)
}

/// `i` is the first index of `s` at which a rule of [`well_formed`] is broken.
pub open spec fn first_fault(s: Seq<NodeModel>, i: int) -> bool {
    &&& 1 <= i < s.len()
    &&& not_below_root(s, i) || skips_level(s, i)
    &&& forall|j: int| 1 <= j < i ==> !not_below_root(s, j) && !skips_level(s, j)
}

/// The message of the failure for a node that is not deeper than the root.
pub open spec fn not_below_root_text() -> Seq<char> {
    "Stack depth must be greater than root stack depth"@
}

/// The message of the failure for a node that skips a level.
pub open spec fn skips_level_text() -> Seq<char> {
    "Invalid stack depth: next node is more than one level below the current one"@
}

/// The message of the failure that the fault at `i` gives.
pub open spec fn fault_text(s: Seq<NodeModel>, i: int) -> Seq<char> {
    if not_below_root(s, i) {
        not_below_root_text()
    } else {
        skips_level_text()
    }
}

/// The length of the longest prefix of `s` whose nodes are all deeper than `depth`.
pub open spec fn run_len(s: Seq<NodeModel>, depth: u8) -> nat
    decreases s.len(),
{
    if s.len() > 0 && s[0].stack_depth > depth {
        1 + run_len(s.drop_first(), depth)
    } else {
        0
    }
}

/// The length of the branch at the front of the non-empty sequence `rest`.
pub open spec fn branch_len(rest: Seq<NodeModel>) -> nat {
    1 + run_len(rest.drop_first(), rest[0].stack_depth)
}

/// The branches into which the nodes after a root fall, in order.
pub open spec fn branches(rest: Seq<NodeModel>) -> Seq<Seq<NodeModel>>
    decreases rest.len(),
{
    if rest.len() == 0 {
        Seq::empty()
    } else {
        proof {
            lemma_run_len_bound(rest.drop_first(), rest[0].stack_depth);
        }
        seq![rest.take(branch_len(rest) as int)] + branches(rest.skip(branch_len(rest) as int))
    }
}

/// A run is no longer than the sequence it is taken from.
pub proof fn lemma_run_len_bound(s: Seq<NodeModel>, depth: u8)
    ensures
        run_len(s, depth) <= s.len(),
    decreases s.len(),
{
    if s.len() > 0 && s[0].stack_depth > depth {
        lemma_run_len_bound(s.drop_first(), depth);
    }
}

/// The branches of a sequence, laid end to end, are the sequence.
pub proof fn lemma_branches_flatten(rest: Seq<NodeModel>)
    ensures
        branches(rest).flatten() == rest,
    decreases rest.len(),
{
    if rest.len() > 0 {
        lemma_run_len_bound(rest.drop_first(), rest[0].stack_depth);
        let n = branch_len(rest) as int;
        lemma_branches_flatten(rest.skip(n));
        assert(branches(rest).drop_first() =~= branches(rest.skip(n)));
    }
}

/// The nodes of a run are deeper than `depth`, and the node after the run, if
/// there is one, is not.
pub proof fn lemma_run_shape(s: Seq<NodeModel>, depth: u8)
    ensures
        forall|j: int| 0 <= j < run_len(s, depth) ==> (#[trigger] s[j]).stack_depth > depth,
        run_len(s, depth) < s.len() ==> s[run_len(s, depth) as int].stack_depth <= depth,
    decreases s.len(),
{
    if s.len() > 0 && s[0].stack_depth > depth {
        let tail = s.drop_first();
        lemma_run_len_bound(tail, depth);
        lemma_run_shape(tail, depth);
        assert forall|j: int| 0 <= j < run_len(s, depth) implies (#[trigger] s[j]).stack_depth
            > depth by {
            if j > 0 {
                assert(s[j] == tail[j - 1]);
            }
        }
    }
}

/// Every branch is a head followed by nodes that are all deeper than the head,
/// and the head of the branch after it is not deeper than the head.
pub proof fn lemma_branch_shape(rest: Seq<NodeModel>, k: int)
    requires
        0 <= k < branches(rest).len(),
    ensures
        branches(rest)[k].len() >= 1,
        forall|j: int|
            1 <= j < branches(rest)[k].len() ==> (#[trigger] branches(rest)[k][j]).stack_depth
                > branches(rest)[k][0].stack_depth,
        k + 1 < branches(rest).len() ==> branches(rest)[k + 1].len() >= 1 && branches(rest)[k
            + 1][0].stack_depth <= branches(rest)[k][0].stack_depth,
    decreases rest.len(),
{
    let tail = rest.drop_first();
    let depth = rest[0].stack_depth;
    let n = branch_len(rest) as int;
    lemma_run_len_bound(tail, depth);
    lemma_run_shape(tail, depth);
    let later = rest.skip(n);
    if k == 0 {
        let branch = branches(rest)[0];
        assert forall|j: int| 1 <= j < branch.len() implies (#[trigger] branch[j]).stack_depth
            > branch[0].stack_depth by {
            assert(branch[j] == tail[j - 1]);
        }
        if 1 < branches(rest).len() {
            lemma_run_len_bound(later.drop_first(), later[0].stack_depth);
        }
    } else {
        if k + 1 < branches(rest).len() {
            assert(branches(rest)[k + 1] == branches(later)[k]);
        }
        lemma_branch_shape(later, k - 1);
    }
}

/// Splitting a well-formed sequence and flattening the result gives the
/// sequence back: the root, followed by the nodes of each branch in order, is
/// the sequence that was split.
pub proof fn lemma_partition_round_trip(s: Seq<NodeModel>)
    requires
        s.len() > 0,
        well_formed(s),
    ensures
        seq![s[0]] + branches(s.drop_first()).flatten() == s,
{
    lemma_branches_flatten(s.drop_first());
}

/// A sequence whose second node is not deeper than its first is not well
/// formed, whatever follows: its first fault is the second node, which is not
/// below the root.
pub proof fn lemma_second_node_not_deeper(s: Seq<NodeModel>)
    requires
        s.len() >= 2,
        s[1].stack_depth <= s[0].stack_depth,
    ensures
        !well_formed(s),
        first_fault(s, 1),
        fault_text(s, 1) == not_below_root_text(),
{
    assert(not_below_root(s, 1));
}

/// A sequence in which a node lies two or more levels below the node before
/// it, that node not being the root, is not well formed.
pub proof fn lemma_depth_jump(s: Seq<NodeModel>, i: int)
    requires
        2 <= i < s.len(),
        s[i].stack_depth >= s[i - 1].stack_depth + 2,
    ensures
        !well_formed(s),
{
    assert(skips_level(s, i));
}

/// A sequence is well formed exactly when it has no first fault.
pub proof fn lemma_fault_or_well_formed(s: Seq<NodeModel>)
    ensures
        well_formed(s) <==> !exists|i: int| first_fault(s, i),
{
    if !well_formed(s) {
        let k = choose|k: int| 1 <= k < s.len() && (not_below_root(s, k) || skips_level(s, k));
        lemma_earliest_fault(s, k);
    }
}

/// Where a rule is broken at `k`, a first fault lies at `k` or before it.
proof fn lemma_earliest_fault(s: Seq<NodeModel>, k: int)
    requires
        1 <= k < s.len(),
        not_below_root(s, k) || skips_level(s, k),
    ensures
        exists|i: int| first_fault(s, i),
    decreases k,
{
    if forall|j: int| 1 <= j < k ==> !not_below_root(s, j) && !skips_level(s, j) {
        assert(first_fault(s, k));
    } else {
        let j = choose|j: int| 1 <= j < k && !(!not_below_root(s, j) && !skips_level(s, j));
        lemma_earliest_fault(s, j);
    }
}

/// A root and the branches below it.
#[derive(Debug, PartialEq, Eq)]
pub struct Partition {
    pub root: InstructionNode,
    pub branches: Vec<VecDeque<InstructionNode>>,
}

/// Takes the root off the front of `tree` and splits the nodes after it into
/// branches.
///
/// An empty sequence has no root and gives `None`. A sequence whose depths are
/// [`well_formed`] gives its root and its [`branches`]. Any other sequence
/// fails with `InvalidStructure` and the message of its first fault.
pub fn partition(tree: VecDeque<InstructionNode>) -> (outcome: Result<Option<Partition>, Failure>)
    ensures
        outcome is Ok <==> well_formed(tree.deep_view()),
        match outcome {
            Ok(None) => tree@.len() == 0,
            Ok(Some(parts)) => {
                &&& tree@.len() > 0
                &&& well_formed(tree.deep_view())
                &&& parts.root@ == tree.deep_view()[0]
                &&& parts.branches.deep_view() == branches(tree.deep_view().drop_first())
                &&& seq![parts.root@] + parts.branches.deep_view().flatten() == tree.deep_view()
            },
            Err(failure) => exists|i: int|
                {
                    &&& #[trigger] first_fault(tree.deep_view(), i)
                    &&& failure.is(ErrorKind::InvalidStructure, fault_text(tree.deep_view(), i))
                },
        },
{
    let ghost s = tree.deep_view();
    proof {
        lemma_fault_or_well_formed(s);
    }
    let mut execution_tree = tree;
    let root = match execution_tree.pop_front() {
        Some(root) => root,
        None => {
            return Ok(None);
        },
    };
    proof {
        lemma_models_after_pop_front(tree, execution_tree);
    }
    let mut found: Vec<VecDeque<InstructionNode>> = Vec::new();
    let ghost mut pos: int = 1;
    while execution_tree.len() > 0
        invariant
            s == tree.deep_view(),
            1 <= pos <= s.len(),
            execution_tree.deep_view() == s.skip(pos),
            root@ == s[0],
            forall|i: int| 1 <= i < pos ==> !not_below_root(s, i),
            forall|i: int| 1 <= i <= pos && i < s.len() ==> !skips_level(s, i),
            found.deep_view() + branches(s.skip(pos)) == branches(s.drop_first()),
        decreases execution_tree.len(),
    {
        let ghost before = execution_tree;
        let node = match execution_tree.pop_front() {
            Some(node) => node,
            None => {
                return Err(
                    Failure::new(
                        ErrorKind::InvalidStructure,
                        "Failed to pop node from execution tree",
                    ),
                );
            },
        };
        proof {
            lemma_models_after_pop_front(before, execution_tree);
        }
        let stack_depth = node.stack_depth;
        match assert_with_msg(
            stack_depth > root.stack_depth,
            ErrorKind::InvalidStructure,
            "Stack depth must be greater than root stack depth",
        ) {
            Ok(()) => {},
            Err(failure) => {
                assert(first_fault(s, pos));
                return Err(failure);
            },
        }
        let mut current_stack_depth = stack_depth;
        let mut child_branch: VecDeque<InstructionNode> = VecDeque::new();
        let ghost fresh = child_branch;
        child_branch.push_back(node);
        let ghost head = pos;
        proof {
            pos = pos + 1;
            lemma_models_after_push_back(fresh, child_branch, node);
            assert(s.skip(head).drop_first() =~= s.skip(pos));
        }
        loop
            invariant_except_break
                execution_tree.deep_view() == s.skip(pos),
            invariant
                s == tree.deep_view(),
                1 <= head < pos <= s.len(),
                execution_tree@.len() == s.len() - pos,
                root@ == s[0],
                stack_depth == s[head].stack_depth,
                current_stack_depth == s[pos - 1].stack_depth,
                child_branch.deep_view() == s.subrange(head, pos),
                forall|i: int| 1 <= i < pos ==> !not_below_root(s, i),
                forall|i: int| 1 <= i < pos ==> !skips_level(s, i),
                branch_len(s.skip(head)) == (pos - head) + run_len(s.skip(pos), stack_depth),
            ensures
                execution_tree.deep_view() == s.skip(pos),
                run_len(s.skip(pos), stack_depth) == 0,
                pos < s.len() ==> !skips_level(s, pos),
            decreases execution_tree.len(),
        {
            if execution_tree.len() == 0 {
                break ;
            }
            let next_depth = execution_tree[0].stack_depth;
            assert(next_depth == s[pos].stack_depth);
            match assert_with_msg(
                !(next_depth > current_stack_depth && next_depth - current_stack_depth > 1),
                ErrorKind::InvalidStructure,
                "Invalid stack depth: next node is more than one level below the current one",
            ) {
                Ok(()) => {},
                Err(failure) => {
                    assert(!not_below_root(s, pos - 1));
                    assert(first_fault(s, pos));
                    return Err(failure);
                },
            }
            if next_depth > stack_depth {
                let ghost before = execution_tree;
                let next = match execution_tree.pop_front() {
                    Some(next) => next,
                    None => {
                        return Err(Failure::new(ErrorKind::InvalidStructure, "Stack is empty"));
                    },
                };
                current_stack_depth = next_depth;
                let ghost shorter = child_branch;
                child_branch.push_back(next);
                proof {
                    lemma_models_after_pop_front(before, execution_tree);
                    lemma_models_after_push_back(shorter, child_branch, next);
                    assert(!not_below_root(s, head));
                    assert(s.skip(pos).skip(1) =~= s.skip(pos + 1));
                    pos = pos + 1;
                }
            } else {
                break ;
            }
        }
        proof {
            let rest = s.skip(head);
            assert(rest.take(pos - head) =~= s.subrange(head, pos));
            assert(rest.skip(pos - head) =~= s.skip(pos));
            assert(found.deep_view().push(child_branch.deep_view()) + branches(s.skip(pos))
                =~= found.deep_view() + branches(rest));
        }
        let ghost earlier = found;
        found.push(child_branch);
        proof {
            lemma_models_after_push_branch(earlier, found, child_branch);
        }
    }
    proof {
        lemma_partition_round_trip(s);
    }
    Ok(Some(Partition { root, branches: found }))
}

} // verus!
