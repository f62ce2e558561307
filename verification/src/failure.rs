//! The ways in which an invocation can fail.
use vstd::prelude::*;

verus! {

/// The kind of a failure.
#[derive(Debug, Clone, Copy, PartialEq, Eq, Structural)]
pub enum ErrorKind {
    /// The payload is not the encoding of a sequence of nodes.
    MalformedEncoding,
    /// The depths of the nodes do not describe a tree below the root.
    InvalidStructure,
    /// A node of a branch names an account that the table does not hold.
    InvalidResourceReference,
    /// An invocation that was handed out reported a failure.
    DispatchFailed,
}

/// A failure of the whole invocation: its kind and a message that identifies it.
#[derive(Debug, PartialEq, Eq)]
pub struct Failure {
    pub kind: ErrorKind,
    pub message: String,
}

/// A [`Failure`] as plain mathematical values.
#[verifier::ext_equal]
pub ghost struct FailureModel {
    pub kind: ErrorKind,
    pub message: Seq<char>,
}

impl View for Failure {
    type V = FailureModel;

    open spec fn view(&self) -> FailureModel {
        FailureModel { kind: self.kind, message: self.message@ }
    }
}

impl Clone for Failure {
    fn clone(&self) -> (copy: Self)
        ensures
            copy@ == self@,
    {
        Failure { kind: self.kind, message: self.message.clone() }
    }
}

impl Failure {
    /// Whether this failure has the kind `kind` and the message `message`.
    pub open spec fn is(&self, kind: ErrorKind, message: Seq<char>) -> bool {
        self@ == (FailureModel { kind, message })
    }

    /// A failure of the kind `kind` that carries `message`.
    pub fn new(kind: ErrorKind, message: &str) -> (failure: Failure)
        ensures
            failure.is(kind, message@),
    {
        Failure { kind, message: message.to_owned() }
    }
}

/// Passes when `v` holds; otherwise fails with the kind `err` and the message `msg`.
pub fn assert_with_msg(v: bool, err: ErrorKind, msg: &str) -> (outcome: Result<(), Failure>)
    ensures
        v ==> outcome is Ok,
        !v ==> (outcome matches Err(failure) && failure.is(err, msg@)),
{
    if v {
        Ok(())
    } else {
        Err(Failure::new(err, msg))
    }
}

} // verus!
