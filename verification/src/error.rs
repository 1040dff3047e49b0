//! The ways in which a transaction can fail.

use vstd::prelude::*;

verus! {

/// Why a snapshot could not be built, applied or exchanged. None of these is
/// recoverable within a transaction: the transaction is abandoned and the
/// local state stays as it was.
#[derive(Clone, Copy, Debug, PartialEq, Eq, Structural)]
pub enum SyncError {
    /// The counterpart broke the protocol: an unknown or reused cache id, a
    /// snapshot of the wrong variant, or a transaction begun while another
    /// is open.
    ProtocolViolation,
    /// The bytes of a partition are malformed or truncated.
    EncodingError,
    /// The call across the boundary itself failed.
    ChannelError,
}

} // verus!
