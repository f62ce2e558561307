//! Reconstruction and recursive dispatch of an execution plan that arrives
//! flattened into one depth-annotated sequence of nodes.
//!
//! A payload is decoded into a sequence of [`InstructionNode`]s. The first node
//! is the root of this invocation; the nodes after it are split into branches,
//! one per run of nodes that lie deeper than the run's first node. Every branch
//! is encoded again and handed out as one further invocation, which applies the
//! same steps to its own payload.
pub mod dispatch;
pub mod failure;
pub mod node;
pub mod program;
pub mod report;
pub mod tree;
pub mod wire;
pub mod workload;

pub use dispatch::{resolve, AccountHandle, Resolution};
pub use failure::{assert_with_msg, ErrorKind, Failure};
pub use node::{InstructionNode, NodeModel};
pub use program::{process_instruction, Action, Coordinator, Dispatch, Event};
pub use report::{execute_root, Report};
pub use tree::{partition, Partition};
pub use wire::{decode, encode};
pub use workload::{mixing_rounds, simulate_work};
