use vstd::prelude::*;

verus! {

/// The typed failures that the engine reports.
#[derive(Clone, Copy, Debug, PartialEq, Eq, Structural)]
pub enum EngineError {
    /// A user, room or device identifier is malformed.
    InvalidIdentifier,
    /// A response does not have the shape that its request kind calls for.
    MalformedResponse,
    /// An acknowledgment names a request that was never issued or is already resolved.
    UnknownRequest,
    /// No inbound group session is known under the given room and session id.
    MissingSession,
    /// The cipher rejected a ciphertext or a signature.
    CryptographicFailure,
}

} // verus!
