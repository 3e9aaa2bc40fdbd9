//! Failure taxonomy shared by the coordinator and the peer agent.

use vstd::prelude::*;

verus! {

/// Every way a coordinator or peer-agent operation can fail.
///
/// Domain failures (`AlreadyExists`, `NotFound`, `AddressSpaceExhausted`,
/// `KeyDerivationError`, `ValidationError`) are returned to the caller as
/// structured codes; `StorageError`, `PropagationError` and
/// `ConfigWriteError` describe failures of the surrounding plumbing.
#[derive(Clone, Copy, Debug, PartialEq, Eq, Structural)]
pub enum WireSyncError {
    /// An input field is malformed (for example, it would corrupt the
    /// rendered configuration text).
    ValidationError,
    /// A record with the same `(endpoint, control_port)` identity is
    /// already registered.
    AlreadyExists,
    /// No record with the given identity is registered.
    NotFound,
    /// Every host address of the configured subnet is taken.
    AddressSpaceExhausted,
    /// The external public-key derivation primitive failed.
    KeyDerivationError,
    /// The backing store failed transiently.
    StorageError,
    /// A configuration push to one peer failed; never fatal to the
    /// triggering operation.
    PropagationError,
    /// The peer-side configuration file could not be replaced; the
    /// previous configuration remains in effect.
    ConfigWriteError,
}

/// The human-readable message for each failure code.
pub open spec fn message_spec(e: WireSyncError) -> Seq<char> {
    match e {
        WireSyncError::ValidationError => "malformed input field"@,
        WireSyncError::AlreadyExists => "identity already exists"@,
        WireSyncError::NotFound => "identity not found"@,
        WireSyncError::AddressSpaceExhausted => "address space exhausted"@,
        WireSyncError::KeyDerivationError => "public key derivation failed"@,
        WireSyncError::StorageError => "storage failure"@,
        WireSyncError::PropagationError => "propagation failure"@,
        WireSyncError::ConfigWriteError => "config write failed"@,
    }
}

impl WireSyncError {
    /// Renders the failure as a human-readable message.
    pub fn message(&self) -> (r: String)
        ensures
            r@ == message_spec(*self),
    {
        match self {
            WireSyncError::ValidationError => String::from_str("malformed input field"),
            WireSyncError::AlreadyExists => String::from_str("identity already exists"),
            WireSyncError::NotFound => String::from_str("identity not found"),
            WireSyncError::AddressSpaceExhausted => String::from_str("address space exhausted"),
            WireSyncError::KeyDerivationError => String::from_str("public key derivation failed"),
            WireSyncError::StorageError => String::from_str("storage failure"),
            WireSyncError::PropagationError => String::from_str("propagation failure"),
            WireSyncError::ConfigWriteError => String::from_str("config write failed"),
        }
    }
}

} // verus!
