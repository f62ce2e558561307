//! What one branch needs to be handed out: its accounts and its payload.
use vstd::prelude::*;
use std::collections::VecDeque;
use crate::failure::{ErrorKind, Failure};
use crate::node::{InstructionNode, NodeModel};

verus! {

/// What the coordinator reads of one account of the table: its address and
/// whether it signs and may be written.
#[derive(Debug, Clone, Copy, PartialEq, Eq)]
pub struct AccountHandle {
    pub key: [u8; 32],
    pub is_signer: bool,
    pub is_writable: bool,
}

/// The handle of the program itself: it neither signs nor is written.
pub open spec fn program_handle(program_id: [u8; 32]) -> AccountHandle {
    AccountHandle { key: program_id, is_signer: false, is_writable: false }
}

/// The account indices of all nodes of a branch, node after node.
pub open spec fn branch_refs(branch: Seq<NodeModel>) -> Seq<u8>
    decreases branch.len(),
{
    if branch.len() == 0 {
        Seq::empty()
    } else {
        branch[0].accounts + branch_refs(branch.drop_first())
    }
}

/// Every index of `refs` names an entry of a table of `table_len` accounts.
pub open spec fn in_bounds(refs: Seq<u8>, table_len: nat) -> bool {
    forall|i: int| 0 <= i < refs.len() ==> (#[trigger] refs[i]) < table_len
}

/// The accounts that the indices `refs` name in `table`, in order.
pub open spec fn resolved(refs: Seq<u8>, table: Seq<AccountHandle>) -> Seq<AccountHandle> {
    Seq::new(refs.len(), |i: int| table[refs[i] as int])
}

/// The message of the failure for an index that the table does not hold.
pub open spec fn out_of_bounds_text() -> Seq<char> {
    "Account index is out of bounds of the account table"@
}

/// The accounts of one branch, resolved against a table.
#[derive(Debug, PartialEq, Eq)]
pub struct Resolution {
    /// The indices that the nodes of the branch name, in order.
    pub indices: Vec<u8>,
    /// The accounts that the indices name, in the same order.
    pub accounts: Vec<AccountHandle>,
}

/// Resolves the account indices of every node of `branch` against `table`.
///
/// Where each index names an entry of the table the result holds the indices
/// and the entries they name, in the order of the nodes. Otherwise the result
/// is `InvalidResourceReference`.
pub fn resolve(branch: &VecDeque<InstructionNode>, table: &Vec<AccountHandle>) -> (outcome: Result<
    Resolution,
    Failure,
>)
    ensures
        match outcome {
            Ok(found) => {
                &&& in_bounds(branch_refs(branch.deep_view()), table@.len())
                &&& found.indices@ == branch_refs(branch.deep_view())
                &&& found.accounts@ == resolved(branch_refs(branch.deep_view()), table@)
            },
            Err(failure) => {
                &&& !in_bounds(branch_refs(branch.deep_view()), table@.len())
                &&& failure.is(ErrorKind::InvalidResourceReference, out_of_bounds_text())
            },
        },
{
    let ghost nodes = branch.deep_view();
    let mut indices: Vec<u8> = Vec::new();
    let mut accounts: Vec<AccountHandle> = Vec::new();
    let mut n: usize = 0;
    assert(nodes.skip(0) =~= nodes);
    while n < branch.len()
        invariant
            nodes == branch.deep_view(),
            n <= branch.len(),
            indices@ + branch_refs(nodes.skip(n as int)) == branch_refs(nodes),
            in_bounds(indices@, table@.len()),
            accounts@ == resolved(indices@, table@),
        decreases branch.len() - n,
    {
        let node = &branch[n];
        let ghost rest = nodes.skip(n as int);
        let ghost earlier = indices@;
        assert(rest.drop_first() =~= nodes.skip(n + 1));
        let mut k: usize = 0;
        while k < node.accounts.len()
            invariant
                nodes == branch.deep_view(),
                k <= node.accounts.len(),
                indices@ == earlier + node.accounts@.take(k as int),
                earlier + branch_refs(rest) == branch_refs(nodes),
                branch_refs(rest) == node.accounts@ + branch_refs(rest.drop_first()),
                in_bounds(indices@, table@.len()),
                accounts@ == resolved(indices@, table@),
            decreases node.accounts.len() - k,
        {
            let index = node.accounts[k];
            if index as usize >= table.len() {
                proof {
                    let refs = branch_refs(nodes);
                    let at = earlier.len() + k;
                    assert(refs[at] == index);
                }
                return Err(
                    Failure::new(
                        ErrorKind::InvalidResourceReference,
                        "Account index is out of bounds of the account table",
                    ),
                );
            }
            indices.push(index);
            accounts.push(table[index as usize]);
            k = k + 1;
        }
        n = n + 1;
    }
    Ok(Resolution { indices, accounts })
}

} // verus!
