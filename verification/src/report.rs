//! What an invocation reports of its root.
use vstd::prelude::*;
use crate::node::{InstructionNode, NodeModel};
use crate::workload::{hash_chain, rounds_for, simulate_work};

verus! {

/// The Base58 text of a byte string in the Bitcoin alphabet, as `bs58::encode`
/// computes it.
pub uninterp spec fn base58(data: Seq<u8>) -> Seq<char>;

/// Calls `bs58::encode` on the thirty-two bytes and `into_string` on the
/// builder it returns. The text is trusted to be the Base58 text of the bytes
/// in the default alphabet, a function of the bytes alone.
#[verifier::external_body]
fn base58_text(data: &[u8; 32]) -> (text: String)
    ensures
        text@ == base58(data@),
{
    bs58::encode(data).into_string()
}

/// What is reported of a root once its work is done.
#[derive(Debug, PartialEq, Eq)]
pub struct Report {
    /// The depth of the root.
    pub stack_depth: u8,
    /// The compute units that the root asked for.
    pub compute_units: u32,
    /// The fingerprint of the simulated work.
    pub hash: [u8; 32],
    /// The fingerprint as Base58 text.
    pub hash_text: String,
}

/// A [`Report`] as plain mathematical values.
#[verifier::ext_equal]
pub ghost struct ReportModel {
    pub stack_depth: u8,
    pub compute_units: u32,
    pub hash: Seq<u8>,
    pub hash_text: Seq<char>,
}

impl View for Report {
    type V = ReportModel;

    open spec fn view(&self) -> ReportModel {
        ReportModel {
            stack_depth: self.stack_depth,
            compute_units: self.compute_units,
            hash: self.hash@,
            hash_text: self.hash_text@,
        }
    }
}

impl Clone for Report {
    fn clone(&self) -> (copy: Self)
        ensures
            copy@ == self@,
    {
        Report {
            stack_depth: self.stack_depth,
            compute_units: self.compute_units,
            hash: self.hash,
            hash_text: self.hash_text.clone(),
        }
    }
}

/// The report that the root `root` gives.
pub open spec fn report_of(root: NodeModel) -> ReportModel {
    ReportModel {
        stack_depth: root.stack_depth,
        compute_units: root.compute_units,
        hash: hash_chain(rounds_for(root.compute_units)),
        hash_text: base58(hash_chain(rounds_for(root.compute_units))),
    }
}

/// Does the work that `root` asks for and reports it.
pub fn execute_root(root: &InstructionNode) -> (report: Report)
    ensures
        report@ == report_of(root@),
{
    let hash = simulate_work(root.compute_units);
    let hash_text = base58_text(&hash);
    Report { stack_depth: root.stack_depth, compute_units: root.compute_units, hash, hash_text }
}

} // verus!
