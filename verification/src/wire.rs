//! The wire format of a sequence of nodes.
//!
//! A payload is the number of nodes as a little-endian `u32`, followed by the
//! nodes in order. A node is one byte of depth, the compute units as a
//! little-endian `u32`, the number of account indices as a little-endian `u32`,
//! and the account indices, one byte each. This is the Borsh encoding of the
//! sequence, and Borsh does the encoding and the decoding.
use vstd::prelude::*;
use std::collections::VecDeque;
use borsh::{BorshDeserialize, BorshSerialize};
use crate::failure::{ErrorKind, Failure};
use crate::node::{InstructionNode, NodeModel};

verus! {

/// The four bytes of `x`, least significant first.
pub open spec fn u32_bytes(x: u32) -> Seq<u8> {
    seq![
        (x % 256) as u8,
        (x / 256 % 256) as u8,
        (x / 65536 % 256) as u8,
        (x / 16777216) as u8,
    ]
}

/// The bytes of one node.
pub open spec fn node_bytes(node: NodeModel) -> Seq<u8> {
    seq![node.stack_depth] + u32_bytes(node.compute_units) + u32_bytes(node.accounts.len() as u32)
        + node.accounts
}

/// The bytes of the nodes of `s`, one node after the other.
pub open spec fn nodes_bytes(s: Seq<NodeModel>) -> Seq<u8>
    decreases s.len(),
{
    if s.len() == 0 {
        Seq::empty()
    } else {
        node_bytes(s[0]) + nodes_bytes(s.drop_first())
    }
}

/// The payload that holds the sequence `s`.
pub open spec fn sequence_bytes(s: Seq<NodeModel>) -> Seq<u8> {
    u32_bytes(s.len() as u32) + nodes_bytes(s)
}

/// Every length in `s` fits the four bytes that the format gives it.
pub open spec fn encodable(s: Seq<NodeModel>) -> bool {
    &&& s.len() <= u32::MAX
    &&& forall|i: int| 0 <= i < s.len() ==> (#[trigger] s[i]).accounts.len() <= u32::MAX
}

/// `data` is the payload that holds `s`.
pub open spec fn encodes(s: Seq<NodeModel>, data: Seq<u8>) -> bool {
    encodable(s) && sequence_bytes(s) == data
}

/// `data` decodes to `s`: an empty payload stands for the empty sequence, and
/// any other payload for the sequence that it holds.
pub open spec fn decodes_to(data: Seq<u8>, s: Seq<NodeModel>) -> bool {
    if data.len() == 0 {
        s.len() == 0
    } else {
        encodes(s, data)
    }
}

/// `data` decodes to some sequence.
pub open spec fn decodable(data: Seq<u8>) -> bool {
    exists|s: Seq<NodeModel>| decodes_to(data, s)
}

/// The sequence that a decodable payload decodes to.
pub open spec fn decoded(data: Seq<u8>) -> Seq<NodeModel> {
    choose|s: Seq<NodeModel>| decodes_to(data, s)
}

/// The message of the failure for a payload that does not decode.
pub open spec fn malformed_text() -> Seq<char> {
    "Failed to decode stack"@
}

/// Four bytes stand for one number only.
pub proof fn lemma_u32_bytes_injective(x: u32, y: u32)
    requires
        u32_bytes(x) == u32_bytes(y),
    ensures
        x == y,
{
    assert(u32_bytes(x)[0] == u32_bytes(y)[0]);
    assert(u32_bytes(x)[1] == u32_bytes(y)[1]);
    assert(u32_bytes(x)[2] == u32_bytes(y)[2]);
    assert(u32_bytes(x)[3] == u32_bytes(y)[3]);
}

/// Where the bytes of a node stand at the front of `data`, each field of the
/// node can be read off `data`, and what follows the node is the rest of `data`.
proof fn lemma_node_at_front(node: NodeModel, tail: Seq<u8>, data: Seq<u8>)
    requires
        node.accounts.len() <= u32::MAX,
        data == node_bytes(node) + tail,
    ensures
        data.len() == 9 + node.accounts.len() + tail.len(),
        data[0] == node.stack_depth,
        data.subrange(1, 5) == u32_bytes(node.compute_units),
        data.subrange(5, 9) == u32_bytes(node.accounts.len() as u32),
        data.subrange(9, 9 + node.accounts.len() as int) == node.accounts,
        data.skip(9 + node.accounts.len() as int) == tail,
{
}

/// Two sequences of the same length whose nodes have the same bytes are the
/// same sequence.
proof fn lemma_nodes_bytes_injective(a: Seq<NodeModel>, b: Seq<NodeModel>)
    requires
        a.len() == b.len(),
        forall|i: int| 0 <= i < a.len() ==> (#[trigger] a[i]).accounts.len() <= u32::MAX,
        forall|i: int| 0 <= i < b.len() ==> (#[trigger] b[i]).accounts.len() <= u32::MAX,
        nodes_bytes(a) == nodes_bytes(b),
    ensures
        a == b,
    decreases a.len(),
{
    if a.len() > 0 {
        let data = nodes_bytes(a);
        let x = a[0];
        let y = b[0];
        lemma_node_at_front(x, nodes_bytes(a.drop_first()), data);
        lemma_node_at_front(y, nodes_bytes(b.drop_first()), data);
        lemma_u32_bytes_injective(x.compute_units, y.compute_units);
        lemma_u32_bytes_injective(x.accounts.len() as u32, y.accounts.len() as u32);
        assert forall|i: int| 0 <= i < a.len() - 1 implies (
        #[trigger] a.drop_first()[i]).accounts.len() <= u32::MAX by {}
        assert forall|i: int| 0 <= i < b.len() - 1 implies (
        #[trigger] b.drop_first()[i]).accounts.len() <= u32::MAX by {}
        lemma_nodes_bytes_injective(a.drop_first(), b.drop_first());
        assert(a =~= seq![x] + a.drop_first());
        assert(b =~= seq![y] + b.drop_first());
    }
}

/// A payload holds one sequence at most.
pub proof fn lemma_encoding_unambiguous(a: Seq<NodeModel>, b: Seq<NodeModel>, data: Seq<u8>)
    requires
        encodes(a, data),
        encodes(b, data),
    ensures
        a == b,
{
    assert(data.subrange(0, 4) =~= u32_bytes(a.len() as u32));
    assert(data.subrange(0, 4) =~= u32_bytes(b.len() as u32));
    lemma_u32_bytes_injective(a.len() as u32, b.len() as u32);
    assert(data.skip(4) =~= nodes_bytes(a));
    assert(data.skip(4) =~= nodes_bytes(b));
    lemma_nodes_bytes_injective(a, b);
}

/// A payload decodes to one sequence at most.
pub proof fn lemma_decoding_unambiguous(data: Seq<u8>, a: Seq<NodeModel>, b: Seq<NodeModel>)
    requires
        decodes_to(data, a),
        decodes_to(data, b),
    ensures
        a == b,
{
    if data.len() > 0 {
        lemma_encoding_unambiguous(a, b, data);
    }
}

/// The payload that holds a sequence decodes to that sequence.
pub proof fn lemma_decode_of_encoding(s: Seq<NodeModel>)
    requires
        encodable(s),
    ensures
        decodable(sequence_bytes(s)),
        decoded(sequence_bytes(s)) == s,
{
    assert(decodes_to(sequence_bytes(s), s));
    lemma_decoding_unambiguous(sequence_bytes(s), s, decoded(sequence_bytes(s)));
}

/// The empty payload decodes to the empty sequence.
pub proof fn lemma_decode_of_nothing()
    ensures
        decodable(Seq::<u8>::empty()),
        decoded(Seq::<u8>::empty()) == Seq::<NodeModel>::empty(),
{
    assert(decodes_to(Seq::<u8>::empty(), Seq::<NodeModel>::empty()));
}

/// Calls `borsh::BorshDeserialize::try_from_slice` for a `VecDeque` of
/// `(u8, u32, Vec<u8>)` and makes a node of each tuple.
///
/// Borsh reads a little-endian `u32` length and then that many elements, each
/// tuple field by field: a `u8` as one byte, a `u32` as four bytes,
/// least significant first, and a `Vec<u8>` as a `u32` length and that many
/// bytes. It fails where the bytes run out, and where bytes are left over. So
/// a result is trusted to be a sequence that `data` holds, and a failure to
/// mean that `data` holds none.
#[verifier::external_body]
fn borsh_from_slice(data: &[u8]) -> (decoded: Option<VecDeque<InstructionNode>>)
    ensures
        match decoded {
            Some(nodes) => encodes(nodes.deep_view(), data@),
            None => forall|s: Seq<NodeModel>| !#[trigger] encodes(s, data@),
        },
{
    let items = VecDeque::<(u8, u32, Vec<u8>)>::try_from_slice(data).ok()?;
    Some(
        items.into_iter().map(
            |(stack_depth, compute_units, accounts)|
                InstructionNode { stack_depth, compute_units, accounts },
        ).collect(),
    )
}

/// Calls `borsh::BorshSerialize::try_to_vec` on the nodes as a `VecDeque` of
/// `(u8, u32, &Vec<u8>)`.
///
/// Borsh writes the layout that `borsh_from_slice` reads. It fails only where
/// the number of nodes, or the number of account indices of a node, does not
/// fit a `u32`. So a result is trusted to be the payload that holds the nodes,
/// and a failure to mean that a length is too large.
#[verifier::external_body]
fn borsh_to_vec(nodes: &VecDeque<InstructionNode>) -> (encoded: Option<Vec<u8>>)
    ensures
        match encoded {
            Some(bytes) => encodes(nodes.deep_view(), bytes@),
            None => !encodable(nodes.deep_view()),
        },
{
    let items: VecDeque<(u8, u32, &Vec<u8>)> = nodes.iter().map(
        |node| (node.stack_depth, node.compute_units, &node.accounts),
    ).collect();
    items.try_to_vec().ok()
}

/// Decodes a payload into its sequence of nodes.
///
/// An empty payload is the empty sequence. Any other payload must be the
/// encoding of a sequence, all of it; otherwise the result is
/// `MalformedEncoding`.
pub fn decode(instruction_data: &[u8]) -> (outcome: Result<VecDeque<InstructionNode>, Failure>)
    ensures
        outcome is Ok <==> decodable(instruction_data@),
        match outcome {
            Ok(nodes) => nodes.deep_view() == decoded(instruction_data@),
            Err(failure) => failure.is(ErrorKind::MalformedEncoding, malformed_text()),
        },
{
    if instruction_data.len() == 0 {
        let nodes: VecDeque<InstructionNode> = VecDeque::new();
        proof {
            lemma_decoding_unambiguous(
                instruction_data@,
                nodes.deep_view(),
                decoded(instruction_data@),
            );
        }
        return Ok(nodes);
    }
    match borsh_from_slice(instruction_data) {
        Some(nodes) => {
            proof {
                assert(decodes_to(instruction_data@, nodes.deep_view()));
                lemma_decoding_unambiguous(
                    instruction_data@,
                    nodes.deep_view(),
                    decoded(instruction_data@),
                );
            }
            Ok(nodes)
        },
        None => {
            assert forall|s: Seq<NodeModel>| !decodes_to(instruction_data@, s) by {}
            Err(Failure::new(ErrorKind::MalformedEncoding, "Failed to decode stack"))
        },
    }
}

/// Encodes a sequence of nodes as a payload, where every length in it fits a
/// `u32`, and gives `None` where one does not.
pub fn encode(nodes: &VecDeque<InstructionNode>) -> (encoded: Option<Vec<u8>>)
    ensures
        match encoded {
            Some(bytes) => encodes(nodes.deep_view(), bytes@),
            None => !encodable(nodes.deep_view()),
        },
{
    borsh_to_vec(nodes)
}

} // verus!
