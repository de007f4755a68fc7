//! Exchange-agnostic market data streaming: the decisions behind the
//! subscribe handshake, order book reconstruction, outbound message
//! distribution and application-level pings, each with a proved contract.

use vstd::prelude::*;

/// Instruments and subscriptions.
pub mod instrument;

/// What an exchange brings to a stream.
pub mod exchange;

/// Delivery of queued outbound messages to the exchange.
pub mod outbound;

/// Order book sides and their updates.
pub mod book;

/// Order books rebuilt from snapshots and sequenced deltas.
pub mod sequence;

/// Application-level pings on a fixed interval.
pub mod ping;

/// Wire-level subscription names and the map that resolves them.
pub mod subscription;

/// The errors of a market stream.
pub mod error;

/// The subscribe handshake.
pub mod subscriber;

/// Translation of parsed exchange updates into normalised events.
pub mod transformer;

/// The pipeline that callers consume, and the steps that set it up.
pub mod stream;

pub use outbound::distribute_messages_to_exchange;
pub use ping::schedule_pings_to_exchange;
pub use stream::MarketStream;

verus! {

/// Something that can be identified by a value of type `T`.
pub trait Identifier<T> {
    fn id(&self) -> T;
}

} // verus!
