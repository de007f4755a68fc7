use crate::subscription::SubscriptionId;
use vstd::prelude::*;

verus! {

/// Why an exchange turned a subscription down.
#[derive(Clone, Copy, Debug, PartialEq, Eq, Structural)]
pub enum RejectionReason {
    InvalidInstrument,
    UnsupportedKind,
    RateLimited,
    MalformedAck,
}

/// Everything that can go wrong between the first connection attempt and the
/// last event of a stream.
#[derive(Debug, PartialEq, Eq)]
pub enum DataError {
    /// The transport could not be reached, or its own handshake failed.
    Connection,
    /// The exchange turned a subscription down.
    Subscription(RejectionReason),
    /// An inbound frame could not be parsed.
    Parse,
    /// An inbound frame names a channel and market that nothing subscribed to.
    Unidentifiable(SubscriptionId),
    /// Book updates are missing for the instrument numbered `instrument`.
    SequenceGap { instrument: usize, expected: u64, received: u64 },
    /// A book update whose sequence numbers fit neither before nor at the
    /// expected one.
    InvalidSequence { instrument: usize, first_seq: u64, last_seq: u64 },
    /// The transformer could not be set up.
    TransformerInit,
}

impl DataError {
    /// Fatal errors end the initialisation or the stream; the others are
    /// reported as one failed item, and the stream goes on.
    pub open spec fn fatal(&self) -> bool {
        match self {
            DataError::Connection => true,
            DataError::Subscription(_) => true,
            DataError::TransformerInit => true,
            _ => false,
        }
    }

    /// Whether the error ends the initialisation or the stream.
    pub fn is_fatal(&self) -> (fatal: bool)
        ensures
            fatal == self.fatal(),
    {
        match self {
            DataError::Connection => true,
            DataError::Subscription(_) => true,
            DataError::TransformerInit => true,
            _ => false,
        }
    }
}

} // verus!
