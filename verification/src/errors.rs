//! The error taxonomy: boundary, validation, remote and checkpoint errors.
//! Execution-level failures (revert, halt) are not errors; they are ordinary
//! outcome values.
use vstd::prelude::*;

use crate::values::{Address, Uint256};

verus! {

/// A key that a remote-backed store must have answered by its remote source
/// before the read can be served.
#[derive(Debug, Clone, Copy, PartialEq, Eq, Structural)]
pub enum RemoteKey {
    Account(Address),
    Slot(Address, Uint256),
    BlockHash(u64),
    /// Execution against a remote-backed store may read arbitrary remote
    /// state mid-run; such a run must be driven by a remote-capable
    /// runner outside this library.
    FullState,
}

/// Everything this library can fail with.
#[derive(Debug)]
pub enum EvmError {
    /// A malformed address, hash or integer at the boundary; the store is
    /// never reached.
    InvalidArgument(String),
    /// The prepared transaction was rejected before execution began.
    ValidationError(String),
    /// The remote data source could not answer a read; the cause travels
    /// unchanged.
    RemoteFetchError(String),
    /// A cold read in a remote-backed store: the caller must fetch this key
    /// from the remote source and install the answer, then read again.
    RemoteFetchRequired(RemoteKey),
    /// The checkpoint token is not among those currently held.
    InvalidCheckpoint,
    /// No checkpoint is outstanding at all.
    NoCheckpointToRevert,
    /// No stored account's code matches the requested hash.
    NotFound,
    /// The engine produced a non-success outcome where a successful one
    /// was required; the full outcome stays readable on the instance.
    ExecutionFailed(String),
}

impl EvmError {
    /// A short stable tag for the error kind.
    pub fn kind(&self) -> (r: &'static str)
        ensures
            r@ == match self {
                EvmError::InvalidArgument(_) => "InvalidArgument"@,
                EvmError::ValidationError(_) => "ValidationError"@,
                EvmError::RemoteFetchError(_) => "RemoteFetchError"@,
                EvmError::RemoteFetchRequired(_) => "RemoteFetchRequired"@,
                EvmError::InvalidCheckpoint => "InvalidCheckpoint"@,
                EvmError::NoCheckpointToRevert => "NoCheckpointToRevert"@,
                EvmError::NotFound => "NotFound"@,
                EvmError::ExecutionFailed(_) => "ExecutionFailed"@,
            },
    {
        match self {
            EvmError::InvalidArgument(_) => "InvalidArgument",
            EvmError::ValidationError(_) => "ValidationError",
            EvmError::RemoteFetchError(_) => "RemoteFetchError",
            EvmError::RemoteFetchRequired(_) => "RemoteFetchRequired",
            EvmError::InvalidCheckpoint => "InvalidCheckpoint",
            EvmError::NoCheckpointToRevert => "NoCheckpointToRevert",
            EvmError::NotFound => "NotFound",
            EvmError::ExecutionFailed(_) => "ExecutionFailed",
        }
    }
}

} // verus!
