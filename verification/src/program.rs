//! One invocation: from a payload to the invocations that it hands out.
//!
//! [`process_instruction`] decodes the payload, does the work of the root and
//! splits the nodes below it into branches. What it returns is a
//! [`Coordinator`]: the caller hands every [`Action::Dispatch`] it yields to the
//! runtime and reports back how that went, until the coordinator completes or
//! aborts.
use vstd::prelude::*;
use vstd::slice::slice_to_vec;
use std::collections::VecDeque;
use crate::dispatch::{
    branch_refs, in_bounds, out_of_bounds_text, program_handle, resolve, resolved, AccountHandle,
};
use crate::failure::{ErrorKind, Failure, FailureModel};
use crate::node::{InstructionNode, NodeModel};
use crate::report::{execute_root, report_of, Report, ReportModel};
use crate::tree::{
    branch_len, branches, fault_text, first_fault, lemma_run_len_bound, partition, well_formed,
};
use crate::wire::{
    decodable, decode, decoded, encodable, encode, lemma_decode_of_nothing, malformed_text,
    sequence_bytes,
};

verus! {

/// One invocation that is to be handed out.
#[derive(Debug, PartialEq, Eq)]
pub struct Dispatch {
    /// The program to invoke: this program itself.
    pub program_id: [u8; 32],
    /// The accounts of the instruction: those that the branch names, and the
    /// program's own handle last.
    pub accounts: Vec<AccountHandle>,
    /// The entries of the account table that go with the invocation, by index.
    pub account_indices: Vec<u8>,
    /// The payload: the encoded branch.
    pub data: Vec<u8>,
}

/// A [`Dispatch`] as plain mathematical values.
#[verifier::ext_equal]
pub ghost struct DispatchModel {
    pub program_id: [u8; 32],
    pub accounts: Seq<AccountHandle>,
    pub account_indices: Seq<u8>,
    pub data: Seq<u8>,
}

impl View for Dispatch {
    type V = DispatchModel;

    open spec fn view(&self) -> DispatchModel {
        DispatchModel {
            program_id: self.program_id,
            accounts: self.accounts@,
            account_indices: self.account_indices@,
            data: self.data@,
        }
    }
}

/// What the caller tells the coordinator.
#[derive(Debug, Clone, Copy, PartialEq, Eq, Structural)]
pub enum Event {
    /// Nothing was handed out yet.
    Started,
    /// The invocation that was handed out last has succeeded.
    DispatchSucceeded,
    /// The invocation that was handed out last has failed.
    DispatchFailed,
}

/// What the coordinator asks of the caller.
#[derive(Debug, PartialEq, Eq)]
pub enum Action {
    /// Hand this invocation out and report how it went.
    Dispatch(Dispatch),
    /// Every branch was handed out. The report is that of the root; an empty
    /// payload has no root and no report.
    Complete(Option<Report>),
    /// The invocation has failed.
    Abort(Failure),
}

/// An [`Action`] as plain mathematical values.
#[verifier::ext_equal]
pub ghost enum ActionModel {
    Dispatch(DispatchModel),
    Complete(Option<ReportModel>),
    Abort(FailureModel),
}

impl View for Action {
    type V = ActionModel;

    open spec fn view(&self) -> ActionModel {
        match self {
            Action::Dispatch(dispatch) => ActionModel::Dispatch(dispatch@),
            Action::Complete(Some(report)) => ActionModel::Complete(Some(report@)),
            Action::Complete(None) => ActionModel::Complete(None),
            Action::Abort(failure) => ActionModel::Abort(failure@),
        }
    }
}

/// The state of an invocation between two actions.
#[derive(Debug)]
pub struct Coordinator {
    program_id: [u8; 32],
    accounts: Vec<AccountHandle>,
    branches: Vec<VecDeque<InstructionNode>>,
    cursor: usize,
    report: Option<Report>,
    stopped: Option<Failure>,
}

/// A [`Coordinator`] as plain mathematical values.
#[verifier::ext_equal]
pub ghost struct CoordinatorModel {
    /// The program that is invoked again for every branch.
    pub program_id: [u8; 32],
    /// The account table of this invocation.
    pub table: Seq<AccountHandle>,
    /// The branches that were not handed out yet, in order.
    pub pending: Seq<Seq<NodeModel>>,
    /// The report of the root, where there is a root.
    pub report: Option<ReportModel>,
    /// The failure that ended the invocation, once one did.
    pub stopped: Option<FailureModel>,
}

/// The message of the failure for an invocation that reported a failure.
pub open spec fn dispatch_failed_text() -> Seq<char> {
    "Invocation of a branch failed"@
}

/// The invocation that hands out `branch` from the state `m`.
pub open spec fn dispatch_of(m: CoordinatorModel, branch: Seq<NodeModel>) -> DispatchModel {
    DispatchModel {
        program_id: m.program_id,
        accounts: resolved(branch_refs(branch), m.table).push(program_handle(m.program_id)),
        account_indices: branch_refs(branch),
        data: sequence_bytes(branch),
    }
}

/// The state `m` once it has failed with `failure`.
pub open spec fn stop(m: CoordinatorModel, failure: FailureModel) -> CoordinatorModel {
    CoordinatorModel { stopped: Some(failure), ..m }
}

/// The state after `event` and the action that it leads to.
///
/// A coordinator that has failed repeats its failure. A failed invocation ends
/// the whole invocation. Otherwise the next pending branch is handed out, if
/// all its account indices are in the table; and when none is pending the
/// invocation is complete.
pub open spec fn transition(m: CoordinatorModel, event: Event) -> (CoordinatorModel, ActionModel) {
    if m.stopped is Some {
        (m, ActionModel::Abort(m.stopped->0))
    } else if event == Event::DispatchFailed {
        let failure = FailureModel {
            kind: ErrorKind::DispatchFailed,
            message: dispatch_failed_text(),
        };
        (stop(m, failure), ActionModel::Abort(failure))
    } else if m.pending.len() == 0 {
        (m, ActionModel::Complete(m.report))
    } else if !in_bounds(branch_refs(m.pending[0]), m.table.len()) {
        let failure = FailureModel {
            kind: ErrorKind::InvalidResourceReference,
            message: out_of_bounds_text(),
        };
        (stop(m, failure), ActionModel::Abort(failure))
    } else {
        (
            CoordinatorModel { pending: m.pending.drop_first(), ..m },
            ActionModel::Dispatch(dispatch_of(m, m.pending[0])),
        )
    }
}

/// The state in which the invocation of `program_id` on the accounts `table`
/// and the nodes `s` starts to hand out branches.
pub open spec fn initial(
    program_id: [u8; 32],
    table: Seq<AccountHandle>,
    s: Seq<NodeModel>,
) -> CoordinatorModel {
    CoordinatorModel {
        program_id,
        table,
        pending: if s.len() == 0 {
            Seq::empty()
        } else {
            branches(s.drop_first())
        },
        report: if s.len() == 0 {
            None
        } else {
            Some(report_of(s[0]))
        },
        stopped: None,
    }
}

/// The invocations that a coordinator in the state `m` hands out while every
/// one of them succeeds, in order, and the action that ends the run.
pub open spec fn run(m: CoordinatorModel) -> (Seq<DispatchModel>, ActionModel)
    decreases m.pending.len(),
{
    let (next, action) = transition(m, Event::DispatchSucceeded);
    if action is Dispatch {
        (seq![action->Dispatch_0] + run(next).0, run(next).1)
    } else {
        (Seq::empty(), action)
    }
}

/// The failure of a run that meets an account index outside the table.
pub open spec fn out_of_bounds_failure() -> FailureModel {
    FailureModel { kind: ErrorKind::InvalidResourceReference, message: out_of_bounds_text() }
}

/// Before anything was handed out the coordinator acts as after a success.
pub proof fn lemma_start_is_success(m: CoordinatorModel)
    ensures
        transition(m, Event::Started) == transition(m, Event::DispatchSucceeded),
{
}

/// A coordinator that has aborted hands out nothing more: it stays as it is
/// and aborts again, whatever it is told.
pub proof fn lemma_abort_is_final(m: CoordinatorModel, event: Event, later: Event)
    requires
        transition(m, event).1 is Abort,
    ensures
        transition(transition(m, event).0, later) == (
            transition(m, event).0,
            transition(m, event).1,
        ),
{
}

/// The invocations of a run are those of the pending branches, in the order of
/// the branches.
pub proof fn lemma_run_in_order(m: CoordinatorModel, i: int)
    requires
        0 <= i < run(m).0.len(),
    ensures
        i < m.pending.len(),
        run(m).0[i] == dispatch_of(m, m.pending[i]),
    decreases m.pending.len(),
{
    if i > 0 {
        lemma_run_in_order(transition(m, Event::DispatchSucceeded).0, i - 1);
    }
}

/// A run in which every branch names accounts of the table only hands out
/// every branch and completes with the report of the root.
pub proof fn lemma_run_completes(m: CoordinatorModel)
    requires
        m.stopped is None,
        forall|k: int|
            0 <= k < m.pending.len() ==> in_bounds(
                branch_refs(#[trigger] m.pending[k]),
                m.table.len(),
            ),
    ensures
        run(m).0.len() == m.pending.len(),
        run(m).1 == ActionModel::Complete(m.report),
    decreases m.pending.len(),
{
    if m.pending.len() > 0 {
        let next = transition(m, Event::DispatchSucceeded).0;
        assert forall|k: int| 0 <= k < next.pending.len() implies in_bounds(
            branch_refs(#[trigger] next.pending[k]),
            next.table.len(),
        ) by {
            assert(next.pending[k] == m.pending[k + 1]);
        }
        lemma_run_completes(next);
    }
}

/// A run with a branch that names an account outside the table aborts with
/// `InvalidResourceReference`, and hands out neither that branch nor any
/// branch after it.
pub proof fn lemma_run_stops_at_bad_reference(m: CoordinatorModel, k: int)
    requires
        m.stopped is None,
        0 <= k < m.pending.len(),
        !in_bounds(branch_refs(m.pending[k]), m.table.len()),
    ensures
        run(m).0.len() <= k,
        run(m).1 == ActionModel::Abort(out_of_bounds_failure()),
    decreases m.pending.len(),
{
    let (next, action) = transition(m, Event::DispatchSucceeded);
    if action is Dispatch {
        assert(next.pending[k - 1] == m.pending[k]);
        lemma_run_stops_at_bad_reference(next, k - 1);
    }
}

/// The invocation of an empty payload hands out nothing and completes without
/// a report.
pub proof fn lemma_empty_payload_is_no_op(program_id: [u8; 32], table: Seq<AccountHandle>)
    ensures
        decodable(Seq::<u8>::empty()),
        run(initial(program_id, table, decoded(Seq::<u8>::empty()))) == (
            Seq::<DispatchModel>::empty(),
            ActionModel::Complete(None),
        ),
{
    lemma_decode_of_nothing();
}

impl View for Coordinator {
    type V = CoordinatorModel;

    closed spec fn view(&self) -> CoordinatorModel {
        CoordinatorModel {
            program_id: self.program_id,
            table: self.accounts@,
            pending: self.branches.deep_view().skip(self.cursor as int),
            report: match self.report {
                Some(report) => Some(report@),
                None => None,
            },
            stopped: match self.stopped {
                Some(failure) => Some(failure@),
                None => None,
            },
        }
    }
}

impl Coordinator {
    #[verifier::type_invariant]
    spec fn valid(self) -> bool {
        &&& self.cursor <= self.branches@.len()
        &&& forall|i: int|
            0 <= i < self.branches@.len() ==> encodable(#[trigger] self.branches.deep_view()[i])
    }

    /// The report of the root, where the payload had a root.
    pub fn report(&self) -> (report: Option<Report>)
        ensures
            match report {
                Some(report) => self@.report == Some(report@),
                None => self@.report is None,
            },
    {
        match &self.report {
            Some(report) => Some(report.clone()),
            None => None,
        }
    }

    /// Takes in `event` and says what to do next, as [`transition`] has it.
    pub fn step(&mut self, event: Event) -> (action: Action)
        ensures
            final(self)@ == transition(old(self)@, event).0,
            action@ == transition(old(self)@, event).1,
    {
        proof {
            use_type_invariant(&*self);
        }
        if let Some(failure) = &self.stopped {
            return Action::Abort(failure.clone());
        }
        if event == Event::DispatchFailed {
            let failure = Failure::new(ErrorKind::DispatchFailed, "Invocation of a branch failed");
            self.stopped = Some(failure.clone());
            return Action::Abort(failure);
        }
        if self.cursor >= self.branches.len() {
            return Action::Complete(
                match &self.report {
                    Some(report) => Some(report.clone()),
                    None => None,
                },
            );
        }
        let branch = &self.branches[self.cursor];
        match resolve(branch, &self.accounts) {
            Err(failure) => {
                self.stopped = Some(failure.clone());
                Action::Abort(failure)
            },
            Ok(found) => {
                let data = match encode(branch) {
                    Some(data) => data,
                    None => vstd::pervasive::unreached(),
                };
                let mut accounts = found.accounts;
                accounts.push(
                    AccountHandle { key: self.program_id, is_signer: false, is_writable: false },
                );
                self.cursor = self.cursor + 1;
                Action::Dispatch(
                    Dispatch {
                        program_id: self.program_id,
                        accounts,
                        account_indices: found.indices,
                        data,
                    },
                )
            },
        }
    }
}

/// Every branch of an encodable sequence is encodable.
proof fn lemma_branches_encodable(rest: Seq<NodeModel>)
    requires
        encodable(rest),
    ensures
        forall|i: int| 0 <= i < branches(rest).len() ==> encodable(#[trigger] branches(rest)[i]),
    decreases rest.len(),
{
    if rest.len() > 0 {
        lemma_run_len_bound(rest.drop_first(), rest[0].stack_depth);
        let n = branch_len(rest) as int;
        let first = rest.take(n);
        let later = rest.skip(n);
        assert forall|j: int| 0 <= j < first.len() implies (#[trigger] first[j]).accounts.len()
            <= u32::MAX by {}
        assert forall|j: int| 0 <= j < later.len() implies (#[trigger] later[j]).accounts.len()
            <= u32::MAX by {}
        lemma_branches_encodable(later);
        assert forall|i: int| 0 <= i < branches(rest).len() implies encodable(
            #[trigger] branches(rest)[i],
        ) by {
            if i > 0 {
                assert(branches(rest)[i] == branches(later)[i - 1]);
            }
        }
    }
}

/// Starts the invocation of the program `program_id` on the account table
/// `accounts` and the payload `instruction_data`.
///
/// The payload is decoded; the root, its first node, has its work done; the
/// nodes after the root are split into branches. A payload that does not
/// decode fails with `MalformedEncoding`, and one whose depths are not well
/// formed with `InvalidStructure`; then nothing is handed out. Otherwise the
/// result is the coordinator that hands out the branches in order. An empty
/// payload has no root and no branches.
pub fn process_instruction(
    program_id: &[u8; 32],
    accounts: &[AccountHandle],
    instruction_data: &[u8],
) -> (outcome: Result<Coordinator, Failure>)
    ensures
        outcome is Ok <==> decodable(instruction_data@) && well_formed(
            decoded(instruction_data@),
        ),
        match outcome {
            Ok(coordinator) => coordinator@ == initial(
                *program_id,
                accounts@,
                decoded(instruction_data@),
            ),
            Err(failure) => if !decodable(instruction_data@) {
                failure.is(ErrorKind::MalformedEncoding, malformed_text())
            } else {
                exists|i: int|
                    {
                        &&& #[trigger] first_fault(decoded(instruction_data@), i)
                        &&& failure.is(
                            ErrorKind::InvalidStructure,
                            fault_text(decoded(instruction_data@), i),
                        )
                    }
            },
        },
{
    let execution_tree = match decode(instruction_data) {
        Ok(nodes) => nodes,
        Err(failure) => {
            return Err(failure);
        },
    };
    let ghost s = execution_tree.deep_view();
    let parts = match partition(execution_tree) {
        Ok(parts) => parts,
        Err(failure) => {
            return Err(failure);
        },
    };
    let table = slice_to_vec(accounts);
    match parts {
        None => {
            let branches: Vec<VecDeque<InstructionNode>> = Vec::new();
            let coordinator = Coordinator {
                program_id: *program_id,
                accounts: table,
                branches,
                cursor: 0,
                report: None,
                stopped: None,
            };
            Ok(coordinator)
        },
        Some(parts) => {
            let report = execute_root(&parts.root);
            proof {
                assert forall|j: int| 0 <= j < s.drop_first().len() implies (
                #[trigger] s.drop_first()[j]).accounts.len() <= u32::MAX by {}
                lemma_branches_encodable(s.drop_first());
            }
            let coordinator = Coordinator {
                program_id: *program_id,
                accounts: table,
                branches: parts.branches,
                cursor: 0,
                report: Some(report),
                stopped: None,
            };
            Ok(coordinator)
        },
    }
}

} // verus!
