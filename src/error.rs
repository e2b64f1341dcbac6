use vstd::prelude::*;

verus! {

/// The errors of a run.
#[derive(Debug, PartialEq, Eq)]
pub enum Error {
    /// The run ended in a state that matches no outcome.
    Unknown(String),
    /// A post-hook failed; its message.
    EndCallbackError(String),
    /// The loader has no service of this name.
    ServiceNotFound(String),
    /// The plan refers to a node it does not hold.
    NodeEntityNotFound(String),
    /// The middleware chain was walked past its end.
    NextNodeNull,
    /// A service failed; its message.
    Wrapped(String),
    /// Every branch stopped without the end node being reached.
    DeadlockedPlan,
    /// A node's output was written a second time in one run.
    VarRewritten(String),
}

impl Error {
    /// A human-readable description.
    pub fn message(&self) -> String {
        match self {
            Error::Unknown(info) => String::from_str("Unknown:").concat(info.as_str()),
            Error::EndCallbackError(e) => String::from_str("EndCallbackError:").concat(e.as_str()),
            Error::ServiceNotFound(name) => String::from_str("Service[").concat(name.as_str()).concat(
                "] not found",
            ),
            Error::NodeEntityNotFound(name) => String::from_str("Node Service Entity [").concat(
                name.as_str(),
            ).concat("] not found"),
            Error::NextNodeNull => String::from_str(
                ">NextNodeNull< next node is null, service node can not call next function.",
            ),
            Error::Wrapped(e) => String::from_str("Wrapped:").concat(e.as_str()),
            Error::DeadlockedPlan => String::from_str("DeadlockedPlan: every branch stopped before the end node"),
            Error::VarRewritten(name) => String::from_str("VarRewritten: node[").concat(name.as_str()).concat(
                "] already has an output",
            ),
        }
    }
}

} // verus!
