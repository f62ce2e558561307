use std::collections::VecDeque;

use ouroboros::{decode, encode, ErrorKind, InstructionNode};

fn node(stack_depth: u8, compute_units: u32, accounts: Vec<u8>) -> InstructionNode {
    InstructionNode { stack_depth, compute_units, accounts }
}

fn queue(nodes: Vec<InstructionNode>) -> VecDeque<InstructionNode> {
    nodes.into_iter().collect()
}

#[test]
fn encode_lays_out_length_and_fields_little_endian() {
    let bytes = encode(&queue(vec![node(1, 0x0102_0304, vec![7, 8])])).unwrap();
    assert_eq!(bytes, vec![1, 0, 0, 0, 1, 4, 3, 2, 1, 2, 0, 0, 0, 7, 8]);
}

#[test]
fn encode_of_two_nodes() {
    let nodes = queue(vec![node(0, 20_000, vec![]), node(255, u32::MAX, vec![9])]);
    let bytes = encode(&nodes).unwrap();
    assert_eq!(
        bytes,
        vec![
            2, 0, 0, 0, 0, 0x20, 0x4e, 0, 0, 0, 0, 0, 0, 255, 255, 255, 255, 255, 1, 0, 0, 0, 9
        ]
    );
}

#[test]
fn encode_of_empty_sequence() {
    assert_eq!(encode(&VecDeque::new()).unwrap(), vec![0, 0, 0, 0]);
}

#[test]
fn encoding_agrees_with_borsh_on_tuples() {
    let nodes = queue(vec![node(0, 5, vec![1, 2, 3]), node(1, 70_000, vec![])]);
    let tuples: Vec<(u8, u32, Vec<u8>)> = vec![(0, 5, vec![1, 2, 3]), (1, 70_000, vec![])];
    assert_eq!(encode(&nodes).unwrap(), borsh::BorshSerialize::try_to_vec(&tuples).unwrap());
}

#[test]
fn decode_reads_what_encode_writes() {
    let nodes = queue(vec![
        node(0, 20_000, vec![]),
        node(1, 1, vec![0, 0, 3]),
        node(2, u32::MAX, vec![255]),
    ]);
    let bytes = encode(&nodes).unwrap();
    assert_eq!(decode(&bytes).unwrap(), nodes);
}

#[test]
fn decode_of_given_bytes() {
    let bytes = [1, 0, 0, 0, 3, 0x88, 0x13, 0, 0, 2, 0, 0, 0, 4, 5];
    assert_eq!(decode(&bytes).unwrap(), queue(vec![node(3, 5000, vec![4, 5])]));
}

#[test]
fn decode_of_empty_payload_is_empty_sequence() {
    assert_eq!(decode(&[]).unwrap(), VecDeque::new());
}

#[test]
fn decode_of_zero_count_is_empty_sequence() {
    assert_eq!(decode(&[0, 0, 0, 0]).unwrap(), VecDeque::new());
}

#[test]
fn decode_rejects_truncated_count() {
    let failure = decode(&[1, 0, 0]).unwrap_err();
    assert_eq!(failure.kind, ErrorKind::MalformedEncoding);
    assert_eq!(failure.message, "Failed to decode stack");
}

#[test]
fn decode_rejects_truncated_node() {
    let failure = decode(&[1, 0, 0, 0, 3, 0x88, 0x13, 0, 0, 2, 0, 0, 0, 4]).unwrap_err();
    assert_eq!(failure.kind, ErrorKind::MalformedEncoding);
}

#[test]
fn decode_rejects_trailing_bytes() {
    let failure = decode(&[1, 0, 0, 0, 3, 0x88, 0x13, 0, 0, 0, 0, 0, 0, 9]).unwrap_err();
    assert_eq!(failure.kind, ErrorKind::MalformedEncoding);
}

#[test]
fn decode_rejects_count_beyond_the_nodes() {
    let failure = decode(&[2, 0, 0, 0, 3, 0x88, 0x13, 0, 0, 0, 0, 0, 0]).unwrap_err();
    assert_eq!(failure.kind, ErrorKind::MalformedEncoding);
}
