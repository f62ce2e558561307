use std::collections::VecDeque;

use ouroboros::{
    encode, process_instruction, AccountHandle, Action, Dispatch, ErrorKind, Event,
    InstructionNode,
};

const PROGRAM_ID: [u8; 32] = [7u8; 32];

const FOUR_ROUNDS: [u8; 32] = [
    185, 3, 189, 118, 150, 116, 6, 150, 178, 177, 139, 209, 9, 106, 40, 115, 187, 138, 208, 194,
    231, 242, 91, 0, 160, 67, 16, 20, 237, 179, 245, 57,
];

fn node(stack_depth: u8, compute_units: u32, accounts: Vec<u8>) -> InstructionNode {
    InstructionNode { stack_depth, compute_units, accounts }
}

fn queue(nodes: Vec<InstructionNode>) -> VecDeque<InstructionNode> {
    nodes.into_iter().collect()
}

fn account(tag: u8, is_signer: bool, is_writable: bool) -> AccountHandle {
    AccountHandle { key: [tag; 32], is_signer, is_writable }
}

fn program_account() -> AccountHandle {
    AccountHandle { key: PROGRAM_ID, is_signer: false, is_writable: false }
}

fn expect_dispatch(action: Action) -> Dispatch {
    match action {
        Action::Dispatch(dispatch) => dispatch,
        other => panic!("expected a dispatch, got {:?}", other),
    }
}

#[test]
fn test_ouroboros() {
    let mut simulation = VecDeque::new();
    simulation.push_back(InstructionNode {
        stack_depth: 0,
        compute_units: 20_000,
        accounts: vec![],
    });
    simulation.push_back(InstructionNode {
        stack_depth: 1,
        compute_units: 20_000,
        accounts: vec![],
    });
    simulation.push_back(InstructionNode {
        stack_depth: 2,
        compute_units: 7000,
        accounts: vec![],
    });
    simulation.push_back(InstructionNode {
        stack_depth: 2,
        compute_units: 7000,
        accounts: vec![],
    });
    simulation.push_back(InstructionNode {
        stack_depth: 1,
        compute_units: 20_000,
        accounts: vec![],
    });
    let data = encode(&simulation).unwrap();
    let accounts = vec![program_account(), account(1, true, true)];

    let mut coordinator = process_instruction(&PROGRAM_ID, &accounts, &data).unwrap();

    let first = expect_dispatch(coordinator.step(Event::Started));
    let first_branch =
        queue(vec![node(1, 20_000, vec![]), node(2, 7000, vec![]), node(2, 7000, vec![])]);
    assert_eq!(first.program_id, PROGRAM_ID);
    assert_eq!(first.accounts, vec![program_account()]);
    assert_eq!(first.account_indices, Vec::<u8>::new());
    assert_eq!(first.data, encode(&first_branch).unwrap());

    let second = expect_dispatch(coordinator.step(Event::DispatchSucceeded));
    assert_eq!(second.accounts, vec![program_account()]);
    assert_eq!(second.data, encode(&queue(vec![node(1, 20_000, vec![])])).unwrap());

    match coordinator.step(Event::DispatchSucceeded) {
        Action::Complete(Some(report)) => {
            assert_eq!(report.stack_depth, 0);
            assert_eq!(report.compute_units, 20_000);
            assert_eq!(report.hash, FOUR_ROUNDS);
            assert_eq!(report.hash_text, "DTDjSuyNB4rPtmV8gT4NU9hYqZ2s3i3KbnMjJ5e6jizC");
        }
        other => panic!("expected completion, got {:?}", other),
    }
}

#[test]
fn branches_run_again_as_their_own_invocation() {
    let simulation = queue(vec![
        node(0, 20_000, vec![]),
        node(1, 20_000, vec![]),
        node(2, 7000, vec![]),
        node(2, 7000, vec![]),
        node(1, 20_000, vec![]),
    ]);
    let data = encode(&simulation).unwrap();
    let mut outer = process_instruction(&PROGRAM_ID, &[], &data).unwrap();
    let first = expect_dispatch(outer.step(Event::Started));

    let mut inner = process_instruction(&first.program_id, &first.accounts, &first.data).unwrap();
    let report = inner.report().unwrap();
    assert_eq!(report.stack_depth, 1);
    assert_eq!(report.compute_units, 20_000);
    let a = expect_dispatch(inner.step(Event::Started));
    assert_eq!(a.data, encode(&queue(vec![node(2, 7000, vec![])])).unwrap());
    let b = expect_dispatch(inner.step(Event::DispatchSucceeded));
    assert_eq!(b.data, encode(&queue(vec![node(2, 7000, vec![])])).unwrap());
    assert!(matches!(inner.step(Event::DispatchSucceeded), Action::Complete(Some(_))));
}

#[test]
fn single_root_completes_without_dispatch() {
    let data = encode(&queue(vec![node(0, 20_000, vec![])])).unwrap();
    let mut coordinator = process_instruction(&PROGRAM_ID, &[], &data).unwrap();
    match coordinator.step(Event::Started) {
        Action::Complete(Some(report)) => {
            assert_eq!(report.stack_depth, 0);
            assert_eq!(report.compute_units, 20_000);
            assert_eq!(report.hash, FOUR_ROUNDS);
        }
        other => panic!("expected completion, got {:?}", other),
    }
    assert!(matches!(coordinator.step(Event::Started), Action::Complete(Some(_))));
}

#[test]
fn empty_payload_is_a_no_op() {
    let table = [account(1, false, false)];
    let mut coordinator = process_instruction(&PROGRAM_ID, &table, &[]).unwrap();
    assert_eq!(coordinator.report(), None);
    assert_eq!(coordinator.step(Event::Started), Action::Complete(None));
}

#[test]
fn encoded_empty_sequence_is_a_no_op() {
    let mut coordinator = process_instruction(&PROGRAM_ID, &[], &[0, 0, 0, 0]).unwrap();
    assert_eq!(coordinator.report(), None);
    assert_eq!(coordinator.step(Event::Started), Action::Complete(None));
}

#[test]
fn malformed_payload_is_rejected() {
    let failure = process_instruction(&PROGRAM_ID, &[], &[1, 0, 0, 0, 0]).unwrap_err();
    assert_eq!(failure.kind, ErrorKind::MalformedEncoding);
    assert_eq!(failure.message, "Failed to decode stack");
}

#[test]
fn first_child_may_lie_several_levels_below_the_root() {
    let data = encode(&queue(vec![node(0, 1, vec![]), node(2, 1, vec![])])).unwrap();
    let mut coordinator = process_instruction(&PROGRAM_ID, &[], &data).unwrap();
    let only = expect_dispatch(coordinator.step(Event::Started));
    assert_eq!(only.data, encode(&queue(vec![node(2, 1, vec![])])).unwrap());
    assert!(matches!(coordinator.step(Event::DispatchSucceeded), Action::Complete(Some(_))));
}

#[test]
fn depth_jump_below_a_child_is_rejected() {
    let data =
        encode(&queue(vec![node(0, 1, vec![]), node(1, 1, vec![]), node(3, 1, vec![])])).unwrap();
    let failure = process_instruction(&PROGRAM_ID, &[], &data).unwrap_err();
    assert_eq!(failure.kind, ErrorKind::InvalidStructure);
    assert_eq!(
        failure.message,
        "Invalid stack depth: next node is more than one level below the current one"
    );
}

#[test]
fn child_at_root_depth_is_rejected() {
    let data = encode(&queue(vec![node(3, 1, vec![]), node(3, 1, vec![]), node(4, 1, vec![])]))
        .unwrap();
    let failure = process_instruction(&PROGRAM_ID, &[], &data).unwrap_err();
    assert_eq!(failure.kind, ErrorKind::InvalidStructure);
    assert_eq!(failure.message, "Stack depth must be greater than root stack depth");
}

#[test]
fn bad_reference_in_the_root_is_never_resolved() {
    let data = encode(&queue(vec![node(0, 1, vec![5])])).unwrap();
    let table = vec![account(1, false, false), account(2, false, false), account(3, false, false)];
    let mut coordinator = process_instruction(&PROGRAM_ID, &table, &data).unwrap();
    assert!(matches!(coordinator.step(Event::Started), Action::Complete(Some(_))));
}

#[test]
fn bad_reference_in_a_child_aborts() {
    let data = encode(&queue(vec![node(0, 1, vec![]), node(1, 1, vec![5])])).unwrap();
    let table = vec![account(1, false, false), account(2, false, false), account(3, false, false)];
    let mut coordinator = process_instruction(&PROGRAM_ID, &table, &data).unwrap();
    match coordinator.step(Event::Started) {
        Action::Abort(failure) => {
            assert_eq!(failure.kind, ErrorKind::InvalidResourceReference);
            assert_eq!(failure.message, "Account index is out of bounds of the account table");
        }
        other => panic!("expected an abort, got {:?}", other),
    }
}

#[test]
fn reference_equal_to_table_length_aborts() {
    let data = encode(&queue(vec![node(0, 1, vec![]), node(1, 1, vec![2, 3])])).unwrap();
    let table = vec![account(1, false, false), account(2, false, false), account(3, false, false)];
    let mut coordinator = process_instruction(&PROGRAM_ID, &table, &data).unwrap();
    match coordinator.step(Event::Started) {
        Action::Abort(failure) => assert_eq!(failure.kind, ErrorKind::InvalidResourceReference),
        other => panic!("expected an abort, got {:?}", other),
    }
}

#[test]
fn bad_reference_stops_the_branches_after_it() {
    let data = encode(&queue(vec![
        node(0, 1, vec![]),
        node(1, 1, vec![0]),
        node(1, 1, vec![]),
        node(2, 1, vec![9]),
        node(1, 1, vec![1]),
    ]))
    .unwrap();
    let table = vec![account(1, true, false), account(2, false, true)];
    let mut coordinator = process_instruction(&PROGRAM_ID, &table, &data).unwrap();

    let first = expect_dispatch(coordinator.step(Event::Started));
    assert_eq!(first.account_indices, vec![0]);
    assert_eq!(first.accounts, vec![account(1, true, false), program_account()]);

    match coordinator.step(Event::DispatchSucceeded) {
        Action::Abort(failure) => assert_eq!(failure.kind, ErrorKind::InvalidResourceReference),
        other => panic!("expected an abort, got {:?}", other),
    }
    for event in [Event::Started, Event::DispatchSucceeded, Event::DispatchFailed] {
        match coordinator.step(event) {
            Action::Abort(failure) => {
                assert_eq!(failure.kind, ErrorKind::InvalidResourceReference)
            }
            other => panic!("expected an abort, got {:?}", other),
        }
    }
}

#[test]
fn failed_dispatch_stops_the_siblings() {
    let data = encode(&queue(vec![node(0, 1, vec![]), node(1, 1, vec![]), node(1, 1, vec![])]))
        .unwrap();
    let mut coordinator = process_instruction(&PROGRAM_ID, &[], &data).unwrap();
    expect_dispatch(coordinator.step(Event::Started));
    match coordinator.step(Event::DispatchFailed) {
        Action::Abort(failure) => {
            assert_eq!(failure.kind, ErrorKind::DispatchFailed);
            assert_eq!(failure.message, "Invocation of a branch failed");
        }
        other => panic!("expected an abort, got {:?}", other),
    }
    match coordinator.step(Event::DispatchSucceeded) {
        Action::Abort(failure) => assert_eq!(failure.kind, ErrorKind::DispatchFailed),
        other => panic!("expected an abort, got {:?}", other),
    }
}

#[test]
fn accounts_of_every_node_of_a_branch_are_resolved_in_order() {
    let data = encode(&queue(vec![
        node(0, 1, vec![]),
        node(1, 1, vec![2, 0]),
        node(2, 1, vec![0]),
        node(3, 1, vec![1, 1]),
    ]))
    .unwrap();
    let table = vec![account(10, true, true), account(11, false, true), account(12, true, false)];
    let mut coordinator = process_instruction(&PROGRAM_ID, &table, &data).unwrap();
    let dispatch = expect_dispatch(coordinator.step(Event::Started));
    assert_eq!(dispatch.account_indices, vec![2, 0, 0, 1, 1]);
    assert_eq!(
        dispatch.accounts,
        vec![
            account(12, true, false),
            account(10, true, true),
            account(10, true, true),
            account(11, false, true),
            account(11, false, true),
            program_account(),
        ]
    );
    assert_eq!(coordinator.step(Event::DispatchSucceeded), {
        let mut finished = process_instruction(&PROGRAM_ID, &table, &data).unwrap();
        expect_dispatch(finished.step(Event::Started));
        finished.step(Event::DispatchSucceeded)
    });
}
