//! Error kinds of the agent's core and the RPC status each maps to.
use vstd::prelude::*;

verus! {

/// What went wrong, independent of the transport.
#[derive(Clone, Copy, Debug, PartialEq, Eq, Structural)]
pub enum AgentError {
    /// Malformed request, bad format or bad path prefix.
    InvalidArgument,
    /// Unknown container or process.
    NotFound,
    /// A step of sandbox creation failed.
    Precondition,
    /// A system call on a stdio descriptor failed.
    Io,
    /// The peer of a stdio descriptor is closed.
    Eof,
    /// A removal did not finish within its deadline.
    Timeout,
    /// An unexpected errno or library failure.
    Internal,
    /// A terminal operation on a process without a terminal.
    Unavailable,
}

/// Status codes of the RPC transport.
#[derive(Clone, Copy, Debug, PartialEq, Eq, Structural)]
pub enum RpcCode {
    Success,
    InvalidArgument,
    NotFound,
    FailedPrecondition,
    DeadlineExceeded,
    Internal,
    Unavailable,
}

impl AgentError {
    pub open spec fn spec_status(self, writing: bool) -> RpcCode {
        match self {
            AgentError::InvalidArgument => RpcCode::InvalidArgument,
            AgentError::NotFound => RpcCode::NotFound,
            AgentError::Precondition => RpcCode::FailedPrecondition,
            AgentError::Io => if writing {
                RpcCode::InvalidArgument
            } else {
                RpcCode::Internal
            },
            AgentError::Eof => RpcCode::Internal,
            AgentError::Timeout => RpcCode::DeadlineExceeded,
            AgentError::Internal => RpcCode::Internal,
            AgentError::Unavailable => RpcCode::Unavailable,
        }
    }

    /// The status reported for this error; `writing` is set for requests
    /// that write to a process's input.
    pub fn status(&self, writing: bool) -> (r: RpcCode)
        ensures
            r == self.spec_status(writing),
    {
        match *self {
            AgentError::InvalidArgument => RpcCode::InvalidArgument,
            AgentError::NotFound => RpcCode::NotFound,
            AgentError::Precondition => RpcCode::FailedPrecondition,
            AgentError::Io => if writing {
                RpcCode::InvalidArgument
            } else {
                RpcCode::Internal
            },
            AgentError::Eof => RpcCode::Internal,
            AgentError::Timeout => RpcCode::DeadlineExceeded,
            AgentError::Internal => RpcCode::Internal,
            AgentError::Unavailable => RpcCode::Unavailable,
        }
    }
}

} // verus!
