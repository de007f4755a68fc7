use barter_data::exchange::{subscription_ids, Connector};
use barter_data::instrument::{Instrument, InstrumentKind, SubKind, Subscription};
use barter_data::subscription::{ResolutionMap, SubscriptionId};

struct Upper;

impl Connector for Upper {
    fn id(&self) -> String {
        "upper".to_string()
    }

    fn channel(&self, kind: SubKind) -> String {
        match kind {
            SubKind::PublicTrades => "trade".to_string(),
            SubKind::OrderBooksL1 => "bookTicker".to_string(),
            SubKind::OrderBooksL2 => "depth".to_string(),
            SubKind::OrderBooksL3 => "orders".to_string(),
        }
    }

    fn market(&self, instrument: &Instrument) -> String {
        format!("{}{}", instrument.base.name(), instrument.quote.name()).to_uppercase()
    }

    fn ping_interval_millis(&self) -> Option<u64> {
        None
    }
}

fn subscription(base: &str, quote: &str, kind: SubKind) -> Subscription {
    Subscription { instrument: Instrument::new(base, quote, InstrumentKind::Spot), kind }
}

fn id(channel: &str, market: &str) -> SubscriptionId {
    SubscriptionId { channel: channel.to_string(), market: market.to_string() }
}

#[test]
fn each_subscription_has_its_wire_level_name() {
    let subscriptions = vec![
        subscription("btc", "usdt", SubKind::PublicTrades),
        subscription("ETH", "usdt", SubKind::OrderBooksL2),
    ];
    let ids = subscription_ids(&Upper, &subscriptions);
    assert_eq!(ids, vec![id("trade", "BTCUSDT"), id("depth", "ETHUSDT")]);
    assert_eq!(Upper.id(), "upper");
    assert_eq!(Upper.ping_interval_millis(), None);
}

#[test]
fn the_map_resolves_the_names_of_the_subscriptions_and_no_other() {
    let subscriptions = vec![
        subscription("btc", "usdt", SubKind::PublicTrades),
        subscription("eth", "usdt", SubKind::OrderBooksL2),
        subscription("BTC", "USDT", SubKind::PublicTrades),
    ];
    let map = ResolutionMap::build(&subscription_ids(&Upper, &subscriptions));
    assert_eq!(map.len(), 2);
    assert_eq!(map.find(&id("trade", "BTCUSDT")), Some(0));
    assert_eq!(map.find(&id("depth", "ETHUSDT")), Some(1));
    assert_eq!(map.find(&id("depth", "BTCUSDT")), None);
    assert_eq!(map.find(&id("trade", "ETHUSDT")), None);
}
