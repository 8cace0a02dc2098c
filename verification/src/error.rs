//! The error sum type of the core: transport failures are carried through
//! unchanged, malformed chunk streams and policy violations tear the
//! session down, and "not enough bytes yet" is signalled separately by
//! the reader and never surfaced.

use vstd::prelude::*;

verus! {

/// Declaration of the standard I/O error type so that transport failures
/// can be carried through the core's error sum type.
#[verifier::external_type_specification]
#[verifier::external_body]
pub struct ExIoError(std::io::Error);

/// A fatal session error: the session is torn down when one is produced.
#[derive(Debug)]
pub enum SessionError {
    /// The transport failed; the underlying error is carried unchanged.
    Transport(std::io::Error),
    /// Malformed chunk sequence: a fmt 1/2/3 chunk with no prior state,
    /// or a control payload shorter than its type requires.
    Protocol,
    /// A control value outside the allowed range, such as a Set Chunk
    /// Size with the high bit set or a zero chunk size.
    Policy,
}

impl SessionError {
    /// A short human-readable name for the error kind.
    pub fn kind_name(&self) -> (r: String)
        ensures
            self is Protocol ==> r@ == "ProtocolError"@,
            self is Policy ==> r@ == "PolicyError"@,
            self is Transport ==> r@ == "TransportIO"@,
    {
        match self {
            SessionError::Transport(_) => "TransportIO".to_string(),
            SessionError::Protocol => "ProtocolError".to_string(),
            SessionError::Policy => "PolicyError".to_string(),
        }
    }
}

} // verus!
