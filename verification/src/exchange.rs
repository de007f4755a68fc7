use crate::instrument::{Instrument, SubKind, Subscription};
use crate::subscription::SubscriptionId;
use vstd::prelude::*;

verus! {

/// What one exchange brings to a stream: its identity, the wire-level names
/// of its channels and markets, and its custom ping interval, if it has one.
/// Nothing is assumed of an implementation.
pub trait Connector {
    /// The name of the exchange.
    fn id(&self) -> String;

    /// The channel name of a kind of market data.
    fn channel(&self, kind: SubKind) -> String;

    /// The market name of an instrument.
    fn market(&self, instrument: &Instrument) -> String;

    /// The time between two custom pings in milliseconds, where the exchange
    /// asks for custom pings.
    fn ping_interval_millis(&self) -> Option<u64>;
}

/// The wire-level names that the connector gives to the subscriptions, one
/// for each, in the order of the list: the channel is what the connector's
/// `channel` returned for the subscription's kind, the market what its `market`
/// returned for the subscription's instrument.
pub fn subscription_ids<C: Connector>(connector: &C, subscriptions: &Vec<Subscription>) -> (ids:
    Vec<SubscriptionId>)
    ensures
        ids@.len() == subscriptions@.len(),
        forall|i: int|
            0 <= i < ids@.len() ==> call_ensures(
                C::channel,
                (connector, subscriptions@[i].kind),
                (#[trigger] ids@[i]).channel,
            ) && call_ensures(
                C::market,
                (connector, &subscriptions@[i].instrument),
                ids@[i].market,
            ),
{
    let mut ids: Vec<SubscriptionId> = Vec::new();
    let mut i: usize = 0;
    while i < subscriptions.len()
        invariant
            i <= subscriptions.len(),
            ids@.len() == i,
            forall|j: int|
                0 <= j < i ==> call_ensures(
                    C::channel,
                    (connector, subscriptions@[j].kind),
                    (#[trigger] ids@[j]).channel,
                ) && call_ensures(
                    C::market,
                    (connector, &subscriptions@[j].instrument),
                    ids@[j].market,
                ),
        decreases subscriptions.len() - i,
    {
        let subscription = &subscriptions[i];
        let id = SubscriptionId {
            channel: connector.channel(subscription.kind),
            market: connector.market(&subscription.instrument),
        };
        ids.push(id);
        i = i + 1;
    }
    ids
}

} // verus!
