use barter_data::book::Level;
use barter_data::error::{DataError, RejectionReason};
use barter_data::sequence::{Delta, Snapshot};
use barter_data::stream::{InitStep, MarketPipeline, MarketStream, Polled};
use barter_data::subscriber::{Handshake, HandshakeAction, Validation};
use barter_data::subscription::{ResolutionMap, SubscriptionId};
use barter_data::transformer::{
    copy_levels, Event, Granularity, Market, MultiBookTransformer, OutboundMessage, Payload,
    Resync, StatelessTransformer, Trade, Update,
};
use barter_data::Identifier;
use tokio::sync::mpsc::unbounded_channel;

fn id(channel: &str, market: &str) -> SubscriptionId {
    SubscriptionId { channel: channel.to_string(), market: market.to_string() }
}

fn level(price: u64, size: u64) -> Level {
    Level { price, size }
}

#[test]
fn the_map_holds_each_name_once() {
    let ids = vec![id("trade", "btcusdt"), id("depth", "ethusdt"), id("trade", "btcusdt")];
    let map = ResolutionMap::build(&ids);
    assert_eq!(map.len(), 2);
    assert_eq!(map.subscribed(), 3);
    assert_eq!(map.find(&id("trade", "btcusdt")), Some(0));
    assert_eq!(map.find(&id("depth", "ethusdt")), Some(1));
    assert_eq!(map.find(&id("depth", "btcusdt")), None);
    assert_eq!(map.find(&id("trade", "ethusdt")), None);
}

#[test]
fn an_empty_list_resolves_nothing() {
    let map = ResolutionMap::build(&vec![]);
    assert_eq!(map.len(), 0);
    assert_eq!(map.find(&id("trade", "btcusdt")), None);
}

#[test]
fn names_compare_by_channel_and_market() {
    assert!(id("trade", "btcusdt").same(&id("trade", "btcusdt")));
    assert!(!id("trade", "btcusdt").same(&id("trade", "ethusdt")));
    assert!(!id("trade", "btcusdt").same(&id("depth", "btcusdt")));
    assert_eq!(id("trade", "btcusdt").duplicate(), id("trade", "btcusdt"));
    assert_eq!(Identifier::<SubscriptionId>::id(&trade_update()), id("trade", "btcusdt"));
}

#[test]
fn the_handshake_completes_when_every_request_is_accepted() {
    let mut handshake = Handshake::begin(3);
    assert_eq!(handshake.action(), HandshakeAction::AwaitResponse);
    assert_eq!(handshake.on_response(Validation::Confirmed), HandshakeAction::AwaitResponse);
    assert_eq!(handshake.on_response(Validation::Optimistic), HandshakeAction::AwaitResponse);
    assert_eq!(handshake.on_response(Validation::Confirmed), HandshakeAction::Resolve);
    assert_eq!(handshake, Handshake::Complete);
    let map = handshake.conclude(&vec![id("trade", "btcusdt")]).ok();
    assert_eq!(map.map(|m| m.find(&id("trade", "btcusdt"))), Some(Some(0)));
}

#[test]
fn one_rejection_fails_the_whole_handshake() {
    let mut handshake = Handshake::begin(3);
    handshake.on_response(Validation::Confirmed);
    let action = handshake.on_response(Validation::Rejected(RejectionReason::UnsupportedKind));
    assert_eq!(action, HandshakeAction::CloseAndFail(RejectionReason::UnsupportedKind));
    let later = handshake.on_response(Validation::Confirmed);
    assert_eq!(later, HandshakeAction::CloseAndFail(RejectionReason::UnsupportedKind));
    assert_eq!(handshake, Handshake::Failed(RejectionReason::UnsupportedKind));
    let result = handshake.conclude(&vec![id("trade", "btcusdt")]);
    assert_eq!(result.err(), Some(DataError::Subscription(RejectionReason::UnsupportedKind)));
}

#[test]
fn each_rejection_reason_is_reported() {
    for reason in [
        RejectionReason::InvalidInstrument,
        RejectionReason::UnsupportedKind,
        RejectionReason::RateLimited,
        RejectionReason::MalformedAck,
    ] {
        let mut handshake = Handshake::begin(1);
        handshake.on_response(Validation::Rejected(reason));
        assert_eq!(handshake.conclude(&vec![]).err(), Some(DataError::Subscription(reason)));
    }
}

#[test]
fn a_handshake_without_requests_is_complete() {
    assert_eq!(Handshake::begin(0), Handshake::Complete);
    assert_eq!(Handshake::begin(0).action(), HandshakeAction::Resolve);
}

#[test]
fn missing_responses_are_a_connection_error() {
    let mut handshake = Handshake::begin(2);
    handshake.on_response(Validation::Confirmed);
    assert_eq!(handshake, Handshake::Awaiting { remaining: 1 });
    assert_eq!(handshake.conclude(&vec![]).err(), Some(DataError::Connection));
}

#[test]
fn fatal_errors_are_those_of_the_initialisation() {
    assert!(DataError::Connection.is_fatal());
    assert!(DataError::Subscription(RejectionReason::RateLimited).is_fatal());
    assert!(DataError::TransformerInit.is_fatal());
    assert!(!DataError::Parse.is_fatal());
    assert!(!DataError::Unidentifiable(id("trade", "btcusdt")).is_fatal());
    assert!(!DataError::SequenceGap { instrument: 0, expected: 1, received: 3 }.is_fatal());
    assert!(!DataError::InvalidSequence { instrument: 0, first_seq: 1, last_seq: 3 }.is_fatal());
}

#[test]
fn the_steps_of_the_initialisation_follow_in_order() {
    let mut step = InitStep::first();
    let mut seen = vec![step];
    while step != InitStep::Ready {
        step = step.advance(Ok(()), true).unwrap_or(InitStep::Ready);
        seen.push(step);
    }
    assert_eq!(
        seen,
        vec![
            InitStep::Subscribe,
            InitStep::SpawnDistributor,
            InitStep::SpawnPings,
            InitStep::BuildTransformer,
            InitStep::Ready,
        ]
    );
    assert_eq!(InitStep::SpawnDistributor.advance(Ok(()), false), Ok(InitStep::BuildTransformer));
    assert_eq!(InitStep::Ready.advance(Ok(()), false), Ok(InitStep::Ready));
}

#[test]
fn a_failed_step_ends_the_initialisation() {
    assert_eq!(
        InitStep::Subscribe.advance(Err(DataError::Connection), true),
        Err(DataError::Connection)
    );
    assert_eq!(
        InitStep::BuildTransformer.advance(Err(DataError::TransformerInit), false),
        Err(DataError::TransformerInit)
    );
}

fn trade_update() -> Update {
    Update {
        id: id("trade", "btcusdt"),
        payload: Payload::Trade(Trade { price: 30_000, amount: 2, buy: true }),
    }
}

fn snapshot_update() -> Update {
    Update {
        id: id("depth", "ethusdt"),
        payload: Payload::Snapshot(Snapshot {
            last_seq: 10,
            bids: vec![level(1999, 4), level(2000, 1)],
            asks: vec![level(2002, 3), level(2001, 2)],
        }),
    }
}

fn delta_update(first_seq: u64, last_seq: u64) -> Update {
    Update {
        id: id("depth", "ethusdt"),
        payload: Payload::Delta(Delta {
            first_seq,
            last_seq,
            bids: vec![level(2000, 0)],
            asks: vec![level(2003, 5)],
        }),
    }
}

#[test]
fn two_subscriptions_three_frames_three_events() {
    let (tx, mut rx) = unbounded_channel::<OutboundMessage>();
    let map = ResolutionMap::build(&vec![id("trade", "btcusdt"), id("depth", "ethusdt")]);
    let mut transformer = MultiBookTransformer::new(tx, map);

    let mut items = Vec::new();
    for update in [trade_update(), snapshot_update(), delta_update(11, 11)] {
        let out = transformer.transform(&update);
        assert_eq!(out.resync, Resync::NotNeeded);
        items.extend(out.item);
    }

    assert_eq!(
        items,
        vec![
            Ok(Market {
                instrument: 0,
                event: Event::Trade(Trade { price: 30_000, amount: 2, buy: true }),
            }),
            Ok(Market {
                instrument: 1,
                event: Event::BookSnapshot {
                    last_seq: 10,
                    bids: vec![level(2000, 1), level(1999, 4)],
                    asks: vec![level(2001, 2), level(2002, 3)],
                },
            }),
            Ok(Market {
                instrument: 1,
                event: Event::BookDelta {
                    first_seq: 11,
                    last_seq: 11,
                    bids: vec![level(2000, 0)],
                    asks: vec![level(2003, 5)],
                },
            }),
        ]
    );
    assert!(rx.try_recv().is_err());
    let book = transformer.book(1).map(|b| (b.last_applied(), b.book().best_bid()));
    assert_eq!(book, Some((11, Some(level(1999, 4)))));
    assert!(transformer.book(2).is_none());
}

#[test]
fn a_gap_gives_one_error_and_one_resync_request() {
    let (tx, mut rx) = unbounded_channel::<OutboundMessage>();
    let map = ResolutionMap::build(&vec![id("trade", "btcusdt"), id("depth", "ethusdt")]);
    let mut transformer = MultiBookTransformer::new(tx, map);
    transformer.transform(&snapshot_update());

    let out = transformer.transform(&delta_update(13, 14));
    assert_eq!(
        out.item,
        Some(Err(DataError::SequenceGap { instrument: 1, expected: 11, received: 13 }))
    );
    assert_eq!(out.resync, Resync::Queued(1));
    assert_eq!(out.resync.instrument(), Some(1));
    assert_eq!(rx.try_recv().ok(), Some(OutboundMessage::Resync { instrument: 1 }));
    assert!(rx.try_recv().is_err());
    assert_eq!(transformer.book(1).map(|b| b.is_synced()), Some(false));

    let later = transformer.transform(&delta_update(15, 15));
    assert_eq!(later.item, None);
    assert_eq!(later.resync, Resync::NotNeeded);
    assert!(rx.try_recv().is_err());
}

#[test]
fn a_stale_delta_gives_no_item() {
    let (tx, mut rx) = unbounded_channel::<OutboundMessage>();
    let map = ResolutionMap::build(&vec![id("depth", "ethusdt")]);
    let mut transformer = MultiBookTransformer::new(tx, map);
    transformer.transform(&snapshot_update());
    let out = transformer.transform(&delta_update(9, 10));
    assert_eq!(out.item, None);
    assert_eq!(out.resync, Resync::NotNeeded);
    assert!(rx.try_recv().is_err());
    assert_eq!(transformer.book(0).map(|b| b.last_applied()), Some(10));
}

#[test]
fn an_overlapping_delta_is_an_error_without_resync() {
    let (tx, mut rx) = unbounded_channel::<OutboundMessage>();
    let map = ResolutionMap::build(&vec![id("depth", "ethusdt")]);
    let mut transformer = MultiBookTransformer::new(tx, map);
    transformer.transform(&snapshot_update());
    let out = transformer.transform(&delta_update(10, 12));
    assert_eq!(
        out.item,
        Some(Err(DataError::InvalidSequence { instrument: 0, first_seq: 10, last_seq: 12 }))
    );
    assert_eq!(out.resync, Resync::NotNeeded);
    assert!(rx.try_recv().is_err());
}

#[test]
fn an_unknown_name_is_an_error_and_not_a_panic() {
    let (tx, _rx) = unbounded_channel::<OutboundMessage>();
    let map = ResolutionMap::build(&vec![id("depth", "ethusdt")]);
    let mut transformer = MultiBookTransformer::new(tx, map);
    let out = transformer.transform(&trade_update());
    assert_eq!(out.item, Some(Err(DataError::Unidentifiable(id("trade", "btcusdt")))));
    assert_eq!(out.resync, Resync::NotNeeded);
}

#[test]
fn a_gap_is_reported_even_when_nothing_receives() {
    let (tx, rx) = unbounded_channel::<OutboundMessage>();
    drop(rx);
    let map = ResolutionMap::build(&vec![id("depth", "ethusdt")]);
    let mut transformer = MultiBookTransformer::new(tx, map);
    transformer.transform(&snapshot_update());
    let out = transformer.transform(&delta_update(20, 20));
    assert_eq!(
        out.item,
        Some(Err(DataError::SequenceGap { instrument: 0, expected: 11, received: 20 }))
    );
    assert_eq!(out.resync, Resync::Refused(0));
    assert_eq!(out.resync.instrument(), Some(0));
}

#[test]
fn the_stateless_transformer_passes_updates_through() {
    let map = ResolutionMap::build(&vec![id("trade", "btcusdt"), id("depth", "ethusdt")]);
    let transformer = StatelessTransformer::new(map);
    assert_eq!(
        transformer.transform(&trade_update()),
        Ok(Market {
            instrument: 0,
            event: Event::Trade(Trade { price: 30_000, amount: 2, buy: true }),
        })
    );
    assert_eq!(
        transformer.transform(&snapshot_update()),
        Ok(Market {
            instrument: 1,
            event: Event::BookSnapshot {
                last_seq: 10,
                bids: vec![level(1999, 4), level(2000, 1)],
                asks: vec![level(2002, 3), level(2001, 2)],
            },
        })
    );
    let unknown = Update { id: id("trade", "xrpusdt"), payload: trade_update().payload };
    assert_eq!(
        transformer.transform(&unknown),
        Err(DataError::Unidentifiable(id("trade", "xrpusdt")))
    );
}

#[test]
fn levels_are_copied_as_they_are() {
    let levels = vec![level(3, 1), level(1, 0), level(2, 9)];
    assert_eq!(copy_levels(&levels), levels);
    assert_eq!(copy_levels(&vec![]), Vec::<Level>::new());
}

#[test]
fn the_pipeline_yields_items_in_arrival_order() {
    let (tx, _rx) = unbounded_channel::<OutboundMessage>();
    let map = ResolutionMap::build(&vec![id("trade", "btcusdt"), id("depth", "ethusdt")]);
    let mut pipeline = match MarketPipeline::init(tx, map) {
        Ok(pipeline) => pipeline,
        Err(error) => panic!("{:?}", error),
    };
    assert!(matches!(pipeline.poll(), Polled::Pending));
    assert_eq!(pipeline.feed(&trade_update()), Resync::NotNeeded);
    assert_eq!(pipeline.feed(&snapshot_update()), Resync::NotNeeded);
    assert_eq!(pipeline.feed(&delta_update(11, 11)), Resync::NotNeeded);

    let mut kinds = Vec::new();
    loop {
        match pipeline.poll() {
            Polled::Item(Ok(market)) => kinds.push(match market.event {
                Event::Trade(_) => (market.instrument, "trade"),
                Event::BookSnapshot { .. } => (market.instrument, "snapshot"),
                Event::BookDelta { .. } => (market.instrument, "delta"),
            }),
            Polled::Item(Err(error)) => panic!("{:?}", error),
            Polled::Pending => break,
            Polled::Finished => panic!("the stream ended"),
        }
    }
    assert_eq!(kinds, vec![(0, "trade"), (1, "snapshot"), (1, "delta")]);
    assert_eq!(pipeline.transformer().book(1).map(|b| b.last_applied()), Some(11));
}

#[test]
fn a_recoverable_error_is_one_failed_item() {
    let (tx, mut rx) = unbounded_channel::<OutboundMessage>();
    let map = ResolutionMap::build(&vec![id("depth", "ethusdt")]);
    let mut pipeline = MarketPipeline::new(MultiBookTransformer::new(tx, map));
    pipeline.feed(&snapshot_update());
    assert_eq!(pipeline.feed(&delta_update(13, 13)), Resync::Queued(0));
    pipeline.report(DataError::Parse);
    pipeline.feed(&snapshot_update());

    assert!(matches!(pipeline.poll(), Polled::Item(Ok(_))));
    match pipeline.poll() {
        Polled::Item(item) => assert_eq!(
            item,
            Err(DataError::SequenceGap { instrument: 0, expected: 11, received: 13 })
        ),
        _ => panic!("an item is due"),
    }
    assert_eq!(rx.try_recv().ok(), Some(OutboundMessage::Resync { instrument: 0 }));
    assert!(matches!(pipeline.poll(), Polled::Item(Err(DataError::Parse))));
    assert!(matches!(pipeline.poll(), Polled::Item(Ok(_))));
    assert!(matches!(pipeline.poll(), Polled::Pending));
}

#[test]
fn a_fatal_error_is_the_last_item() {
    let (tx, _rx) = unbounded_channel::<OutboundMessage>();
    let map = ResolutionMap::build(&vec![id("trade", "btcusdt")]);
    let mut pipeline = MarketPipeline::new(MultiBookTransformer::new(tx, map));
    pipeline.report(DataError::Connection);
    pipeline.feed(&trade_update());
    assert!(matches!(pipeline.poll(), Polled::Item(Err(DataError::Connection))));
    assert!(matches!(pipeline.poll(), Polled::Finished));
    assert!(matches!(pipeline.poll(), Polled::Finished));
}

#[test]
fn an_applied_delta_can_be_shown_as_the_whole_book() {
    let (tx, _rx) = unbounded_channel::<OutboundMessage>();
    let map = ResolutionMap::build(&vec![id("depth", "ethusdt")]);
    let mut transformer =
        MultiBookTransformer::new(tx, map).with_granularity(Granularity::Snapshot);
    transformer.transform(&snapshot_update());
    let out = transformer.transform(&delta_update(11, 12));
    assert_eq!(
        out.item,
        Some(Ok(Market {
            instrument: 0,
            event: Event::BookSnapshot {
                last_seq: 12,
                bids: vec![level(1999, 4)],
                asks: vec![level(2001, 2), level(2002, 3), level(2003, 5)],
            },
        }))
    );
}

#[test]
fn a_malformed_delta_is_an_error_without_resync() {
    let (tx, mut rx) = unbounded_channel::<OutboundMessage>();
    let map = ResolutionMap::build(&vec![id("depth", "ethusdt")]);
    let mut transformer = MultiBookTransformer::new(tx, map);
    transformer.transform(&snapshot_update());
    let out = transformer.transform(&delta_update(13, 5));
    assert_eq!(
        out.item,
        Some(Err(DataError::InvalidSequence { instrument: 0, first_seq: 13, last_seq: 5 }))
    );
    assert_eq!(out.resync, Resync::NotNeeded);
    assert!(rx.try_recv().is_err());
    assert_eq!(transformer.book(0).map(|b| (b.is_synced(), b.last_applied())), Some((true, 10)));
}

#[test]
fn a_frame_of_updates_is_fed_in_order() {
    let (tx, mut rx) = unbounded_channel::<OutboundMessage>();
    let map = ResolutionMap::build(&vec![id("trade", "btcusdt"), id("depth", "ethusdt")]);
    let mut pipeline = MarketPipeline::new(MultiBookTransformer::new(tx, map));
    pipeline.feed_all(&vec![
        trade_update(),
        snapshot_update(),
        delta_update(9, 10),
        delta_update(11, 11),
        Update { id: id("trade", "xrpusdt"), payload: trade_update().payload },
        delta_update(14, 14),
        delta_update(15, 15),
    ]);

    let mut seen = Vec::new();
    loop {
        match pipeline.poll() {
            Polled::Item(Ok(market)) => seen.push(match market.event {
                Event::Trade(_) => "trade",
                Event::BookSnapshot { .. } => "snapshot",
                Event::BookDelta { .. } => "delta",
            }),
            Polled::Item(Err(DataError::Unidentifiable(_))) => seen.push("unknown"),
            Polled::Item(Err(DataError::SequenceGap { .. })) => seen.push("gap"),
            Polled::Item(Err(_)) => seen.push("error"),
            Polled::Pending => break,
            Polled::Finished => panic!("the stream ended"),
        }
    }
    assert_eq!(seen, vec!["trade", "snapshot", "delta", "unknown", "gap"]);
    assert_eq!(rx.try_recv().ok(), Some(OutboundMessage::Resync { instrument: 1 }));
    assert!(rx.try_recv().is_err());
    assert_eq!(pipeline.transformer().book(1).map(|b| b.is_synced()), Some(false));
}

#[test]
fn an_empty_frame_changes_nothing() {
    let (tx, _rx) = unbounded_channel::<OutboundMessage>();
    let map = ResolutionMap::build(&vec![id("depth", "ethusdt")]);
    let mut pipeline = MarketPipeline::new(MultiBookTransformer::new(tx, map));
    pipeline.feed_all(&vec![]);
    assert!(matches!(pipeline.poll(), Polled::Pending));
}

#[test]
fn a_book_is_rebuilt_among_updates_of_other_instruments() {
    let (tx, _rx) = unbounded_channel::<OutboundMessage>();
    let map = ResolutionMap::build(&vec![id("trade", "btcusdt"), id("depth", "ethusdt")]);
    let mut pipeline = MarketPipeline::new(MultiBookTransformer::new(tx, map));
    pipeline.feed_all(&vec![
        snapshot_update(),
        delta_update(11, 11),
        delta_update(20, 20),
        trade_update(),
        snapshot_update(),
        trade_update(),
        delta_update(11, 12),
        Update { id: id("trade", "xrpusdt"), payload: trade_update().payload },
        delta_update(13, 13),
    ]);
    let book = pipeline.transformer().book(1);
    assert_eq!(book.map(|b| (b.is_synced(), b.last_applied())), Some((true, 13)));
    assert_eq!(book.map(|b| b.book().bids().levels().clone()), Some(vec![level(1999, 4)]));
    assert_eq!(
        book.map(|b| b.book().asks().levels().clone()),
        Some(vec![level(2001, 2), level(2002, 3), level(2003, 5)])
    );
}
