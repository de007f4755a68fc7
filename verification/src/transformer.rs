use crate::book::{depth_of, ordered, Level, OrderBook, Side};
use crate::error::DataError;
use crate::outbound::enqueue;
use crate::book::lemma_apply_levels_concat;
use crate::sequence::{
    after_delta, after_snapshot, consolidated, contiguous, expected,
    lemma_replay_is_consolidated_snapshot, outcome_of, unsynced, BookModel, Delta, DeltaOutcome,
    DeltaView, SequencedBook, Snapshot,
};
use crate::subscription::{ResolutionMap, SubscriptionId};
use crate::Identifier;
use tokio::sync::mpsc::UnboundedSender;
use vstd::prelude::*;

verus! {

/// One public trade: price and amount in ticks, and whether the taker bought.
#[derive(Clone, Copy, Debug, PartialEq, Eq, Structural)]
pub struct Trade {
    pub price: u64,
    pub amount: u64,
    pub buy: bool,
}

/// What one parsed update of an exchange carries.
#[derive(Debug)]
pub enum Payload {
    Trade(Trade),
    Snapshot(Snapshot),
    Delta(Delta),
}

/// One parsed update of an exchange, under its wire-level name.
#[derive(Debug)]
pub struct Update {
    pub id: SubscriptionId,
    pub payload: Payload,
}

impl Identifier<SubscriptionId> for Update {
    /// The wire-level name under which the update came.
    fn id(&self) -> (id: SubscriptionId)
        ensures
            id@ == self.id@,
    {
        self.id.duplicate()
    }
}

/// A normalised event.
#[derive(Debug, PartialEq, Eq)]
pub enum Event {
    Trade(Trade),
    /// The whole book as of `last_seq`, each side best first.
    BookSnapshot { last_seq: u64, bids: Vec<Level>, asks: Vec<Level> },
    /// The updates that took the book from `first_seq` to `last_seq`.
    BookDelta { first_seq: u64, last_seq: u64, bids: Vec<Level>, asks: Vec<Level> },
}

/// A normalised event of the instrument whose subscription stands at the
/// position `instrument` of the list that was subscribed to.
#[derive(Debug, PartialEq, Eq)]
pub struct Market {
    pub instrument: usize,
    pub event: Event,
}

/// A control message for the exchange.
#[derive(Debug, PartialEq, Eq)]
pub enum OutboundMessage {
    /// Asks for a new snapshot of the book of one instrument.
    Resync { instrument: usize },
    /// A payload that the exchange's connector made, such as a custom ping.
    Custom(Vec<u8>),
}

/// What the transformer emits after a delta that it applied.
#[derive(Clone, Copy, Debug, PartialEq, Eq, Structural)]
pub enum Granularity {
    /// The delta itself.
    Diff,
    /// The whole book as it stands after the delta.
    Snapshot,
}

/// What became of the request for a new snapshot that an update called for.
#[derive(Clone, Copy, Debug, PartialEq, Eq, Structural)]
pub enum Resync {
    /// The update called for no new snapshot.
    NotNeeded,
    /// The request for a new snapshot of this instrument is on the outbound
    /// queue.
    Queued(usize),
    /// The outbound queue refused the request for a new snapshot of this
    /// instrument: nothing receives from it any more.
    Refused(usize),
}

impl Resync {
    /// The instrument for which a new snapshot was asked, if one was.
    pub open spec fn wanted(self) -> Option<usize> {
        match self {
            Resync::NotNeeded => None,
            Resync::Queued(instrument) => Some(instrument),
            Resync::Refused(instrument) => Some(instrument),
        }
    }

    /// The instrument for which a new snapshot was asked, if one was.
    pub fn instrument(self) -> (instrument: Option<usize>)
        ensures
            instrument == self.wanted(),
    {
        match self {
            Resync::NotNeeded => None,
            Resync::Queued(instrument) => Some(instrument),
            Resync::Refused(instrument) => Some(instrument),
        }
    }
}

/// What one update became: at most one stream item, and what became of the
/// request for a new snapshot, where the update called for one.
#[derive(Debug)]
pub struct Transformed {
    pub item: Option<Result<Market, DataError>>,
    pub resync: Resync,
}

/// The state of one book after an update.
pub open spec fn next_model(model: BookModel, payload: Payload) -> BookModel {
    match payload {
        Payload::Trade(_) => model,
        Payload::Snapshot(snapshot) => after_snapshot(snapshot@),
        Payload::Delta(delta) => after_delta(model, delta@),
    }
}

/// Whether an update calls for a new snapshot: it is a delta that leaves a gap.
pub open spec fn wants_resync(model: BookModel, payload: Payload) -> bool {
    match payload {
        Payload::Delta(delta) => outcome_of(model, delta.first_seq, delta.last_seq) is Gap,
        _ => false,
    }
}

/// The event holds a whole book: each side in order, with the given depth.
pub open spec fn shows_book(event: Event, model: BookModel) -> bool {
    match event {
        Event::BookSnapshot { last_seq, bids, asks } => {
            &&& last_seq == model.last_applied
            &&& ordered(Side::Bid, bids@)
            &&& depth_of(bids@) == model.bids
            &&& ordered(Side::Ask, asks@)
            &&& depth_of(asks@) == model.asks
        },
        _ => false,
    }
}

/// The event holds the delta's own sequence numbers and updates.
pub open spec fn shows_delta(event: Event, delta: Delta) -> bool {
    match event {
        Event::BookDelta { first_seq, last_seq, bids, asks } => {
            &&& first_seq == delta.first_seq
            &&& last_seq == delta.last_seq
            &&& bids@ == delta.bids@
            &&& asks@ == delta.asks@
        },
        _ => false,
    }
}

/// The stream item that an update of the instrument at `instrument` gives,
/// where `model` is the state of its book before the update and `granularity`
/// says what an applied delta is shown as.
pub open spec fn item_for(
    item: Option<Result<Market, DataError>>,
    instrument: usize,
    model: BookModel,
    payload: Payload,
    granularity: Granularity,
) -> bool {
    match payload {
        Payload::Trade(trade) => item == Some(
            Ok::<Market, DataError>(Market { instrument, event: Event::Trade(trade) }),
        ),
        Payload::Snapshot(snapshot) => {
            &&& item matches Some(Ok(market))
            &&& market.instrument == instrument
            &&& shows_book(market.event, after_snapshot(snapshot@))
        },
        Payload::Delta(delta) => match outcome_of(model, delta.first_seq, delta.last_seq) {
            DeltaOutcome::Applied => {
                &&& item matches Some(Ok(market))
                &&& market.instrument == instrument
                &&& match granularity {
                    Granularity::Diff => shows_delta(market.event, delta),
                    Granularity::Snapshot => shows_book(market.event, after_delta(model, delta@)),
                }
            },
            DeltaOutcome::Stale => item is None,
            DeltaOutcome::AwaitingSnapshot => item is None,
            DeltaOutcome::Gap { expected, received } => item == Some(
                Err::<Market, DataError>(DataError::SequenceGap { instrument, expected, received }),
            ),
            _ => item == Some(
                Err::<Market, DataError>(
                    DataError::InvalidSequence {
                        instrument,
                        first_seq: delta.first_seq,
                        last_seq: delta.last_seq,
                    },
                ),
            ),
        },
    }
}

/// A copy of a list of levels.
pub fn copy_levels(levels: &Vec<Level>) -> (copy: Vec<Level>)
    ensures
        copy@ == levels@,
{
    let mut copy: Vec<Level> = Vec::new();
    let mut i: usize = 0;
    while i < levels.len()
        invariant
            i <= levels.len(),
            copy@ == levels@.take(i as int),
        decreases levels.len() - i,
    {
        copy.push(levels[i]);
        proof {
            assert(levels@.take(i + 1) == levels@.take(i as int).push(levels@[i as int]));
        }
        i = i + 1;
    }
    proof {
        assert(levels@.take(i as int) == levels@);
    }
    copy
}

/// The event of an update that needs no state: a trade as it is, a snapshot
/// or a delta with the levels that it came with.
pub fn stateless_event(payload: &Payload) -> (event: Event)
    ensures
        match *payload {
            Payload::Trade(trade) => event == Event::Trade(trade),
            Payload::Snapshot(snapshot) => {
                &&& event matches Event::BookSnapshot { last_seq, bids, asks }
                &&& last_seq == snapshot.last_seq
                &&& bids@ == snapshot.bids@
                &&& asks@ == snapshot.asks@
            },
            Payload::Delta(delta) => shows_delta(event, delta),
        },
{
    match payload {
        Payload::Trade(trade) => Event::Trade(*trade),
        Payload::Snapshot(snapshot) => Event::BookSnapshot {
            last_seq: snapshot.last_seq,
            bids: copy_levels(&snapshot.bids),
            asks: copy_levels(&snapshot.asks),
        },
        Payload::Delta(delta) => Event::BookDelta {
            first_seq: delta.first_seq,
            last_seq: delta.last_seq,
            bids: copy_levels(&delta.bids),
            asks: copy_levels(&delta.asks),
        },
    }
}

/// The transformer for updates that are complete in themselves, such as
/// trades and top-of-book quotes. It keeps no state but the resolution map.
#[derive(Debug)]
pub struct StatelessTransformer {
    map: ResolutionMap,
}

impl StatelessTransformer {
    pub closed spec fn wf(&self) -> bool {
        self.map.wf()
    }

    /// The position that each wire-level name resolves to.
    pub closed spec fn map_of(&self) -> Map<(Seq<char>, Seq<char>), usize> {
        self.map@
    }

    pub fn new(map: ResolutionMap) -> (transformer: StatelessTransformer)
        requires
            map.wf(),
        ensures
            transformer.wf(),
            transformer.map_of() == map@,
    {
        StatelessTransformer { map }
    }

    /// Turns one update into one stream item: the event of the instrument
    /// that the update's name resolves to, or an error where it resolves to
    /// none.
    pub fn transform(&self, update: &Update) -> (item: Result<Market, DataError>)
        requires
            self.wf(),
        ensures
            item is Ok <==> self.map_of().dom().contains(update.id@),
            item matches Ok(market) ==> market.instrument == self.map_of()[update.id@] && (
            match update.payload {
                Payload::Trade(trade) => market.event == Event::Trade(trade),
                Payload::Snapshot(snapshot) => {
                    &&& market.event matches Event::BookSnapshot { last_seq, bids, asks }
                    &&& last_seq == snapshot.last_seq
                    &&& bids@ == snapshot.bids@
                    &&& asks@ == snapshot.asks@
                },
                Payload::Delta(delta) => shows_delta(market.event, delta),
            }),
            item matches Err(error) ==> error matches DataError::Unidentifiable(id) && id@
                == update.id@,
    {
        match self.map.find(&update.id) {
            Some(instrument) => Ok(Market { instrument, event: stateless_event(&update.payload) }),
            None => Err(DataError::Unidentifiable(update.id.duplicate())),
        }
    }
}

/// The event that shows a whole book.
pub fn book_event(book: &OrderBook, last_seq: u64) -> (event: Event)
    requires
        book.wf(),
    ensures
        shows_book(
            event,
            BookModel { synced: true, bids: book@.bids, asks: book@.asks, last_applied: last_seq },
        ),
{
    Event::BookSnapshot {
        last_seq,
        bids: copy_levels(book.bids().levels()),
        asks: copy_levels(book.asks().levels()),
    }
}

/// The transformer for sequenced order books. It keeps one book for each
/// subscription and hands requests for new snapshots to the outbound queue.
pub struct MultiBookTransformer {
    queue: UnboundedSender<OutboundMessage>,
    map: ResolutionMap,
    books: Vec<SequencedBook>,
    granularity: Granularity,
}

impl MultiBookTransformer {
    /// There is one well-formed book for each subscription.
    pub closed spec fn wf(&self) -> bool {
        &&& self.map.wf()
        &&& self.books@.len() == self.map.subscribed_of()
        &&& forall|i: int| 0 <= i < self.books@.len() ==> (#[trigger] self.books@[i]).wf()
    }

    /// The position that each wire-level name resolves to.
    pub closed spec fn map_of(&self) -> Map<(Seq<char>, Seq<char>), usize> {
        self.map@
    }

    /// What an applied delta is shown as.
    pub closed spec fn granularity_of(&self) -> Granularity {
        self.granularity
    }

    /// The outbound queue that requests for new snapshots go to.
    pub closed spec fn queue_of(&self) -> UnboundedSender<OutboundMessage> {
        self.queue
    }

    /// The state of each book, by the position of its subscription.
    pub closed spec fn books_of(&self) -> Seq<BookModel> {
        Seq::new(self.books@.len(), |i: int| self.books@[i]@)
    }

    proof fn lemma_books_after(before: Self, after: Self, i: int)
        requires
            0 <= i < before.books@.len(),
            after.books@ == before.books@.update(i, after.books@[i]),
        ensures
            after.books_of() == before.books_of().update(i, after.books@[i]@),
    {
        assert(after.books_of() =~= before.books_of().update(i, after.books@[i]@));
    }

    /// Every name resolves to an instrument that has a book.
    pub proof fn lemma_targets_have_books(&self)
        requires
            self.wf(),
        ensures
            forall|key: (Seq<char>, Seq<char>)| #[trigger]
                self.map_of().dom().contains(key) ==> self.map_of()[key] < self.books_of().len(),
    {
        self.map.lemma_targets_in_range();
    }

    /// A transformer over an outbound queue and a resolution map. Every book
    /// waits for its first snapshot, and an applied delta is shown as itself.
    pub fn new(queue: UnboundedSender<OutboundMessage>, map: ResolutionMap) -> (transformer:
        MultiBookTransformer)
        requires
            map.wf(),
        ensures
            transformer.wf(),
            transformer.queue_of() == queue,
            transformer.map_of() == map@,
            transformer.granularity_of() == Granularity::Diff,
            transformer.books_of() == Seq::new(map.subscribed_of() as nat, |i: int| unsynced()),
    {
        let mut books: Vec<SequencedBook> = Vec::new();
        let n = map.subscribed();
        while books.len() < n
            invariant
                n == map.subscribed_of(),
                books@.len() <= n,
                forall|i: int|
                    0 <= i < books@.len() ==> (#[trigger] books@[i]).wf() && books@[i]@
                        == unsynced(),
            decreases n - books.len(),
        {
            books.push(SequencedBook::new());
        }
        let transformer = MultiBookTransformer { queue, map, books, granularity: Granularity::Diff };
        assert(transformer.books_of() =~= Seq::new(
            map.subscribed_of() as nat,
            |i: int| unsynced(),
        ));
        transformer
    }

    /// The same transformer with another granularity.
    pub fn with_granularity(self, granularity: Granularity) -> (transformer: MultiBookTransformer)
        requires
            self.wf(),
        ensures
            transformer.wf(),
            transformer.queue_of() == self.queue_of(),
            transformer.map_of() == self.map_of(),
            transformer.books_of() == self.books_of(),
            transformer.granularity_of() == granularity,
    {
        let transformer = MultiBookTransformer {
            queue: self.queue,
            map: self.map,
            books: self.books,
            granularity,
        };
        assert(transformer.books_of() =~= self.books_of());
        transformer
    }

    /// The book of the subscription at `instrument`.
    pub fn book(&self, instrument: usize) -> (book: Option<&SequencedBook>)
        requires
            self.wf(),
        ensures
            book is Some <==> instrument < self.books_of().len(),
            book matches Some(found) ==> found.wf() && found@ == self.books_of()[instrument as int],
    {
        if instrument < self.books.len() {
            Some(&self.books[instrument])
        } else {
            None
        }
    }

    /// How `transform` takes the transformer from `before` to `after` and
    /// what it returns. The queue and the resolution map stay. A name that resolves to
    /// nothing changes no book and is an error that holds the name. Any other
    /// update changes the book of its instrument alone, asks for a new
    /// snapshot exactly where it is a delta that leaves a gap, and gives the
    /// item that belongs to its payload.
    pub open spec fn transforms(before: Self, after: Self, update: Update, out: Transformed) -> bool {
        &&& after.wf()
        &&& after.queue_of() == before.queue_of()
        &&& after.map_of() == before.map_of()
        &&& after.granularity_of() == before.granularity_of()
        &&& !before.map_of().dom().contains(update.id@) ==> {
            &&& after.books_of() == before.books_of()
            &&& out.resync == Resync::NotNeeded
            &&& out.item matches Some(Err(DataError::Unidentifiable(id)))
            &&& id@ == update.id@
        }
        &&& before.map_of().dom().contains(update.id@) ==> {
            let instrument = before.map_of()[update.id@];
            let model = before.books_of()[instrument as int];
            &&& instrument < before.books_of().len()
            &&& after.books_of() == before.books_of().update(
                instrument as int,
                next_model(model, update.payload),
            )
            &&& out.resync.wanted() == if wants_resync(model, update.payload) {
                Some(instrument)
            } else {
                None
            }
            &&& item_for(out.item, instrument, model, update.payload, before.granularity_of())
        }
    }

    /// Turns one update into at most one stream item. A name that resolves to
    /// nothing is an error and changes no book. Otherwise the update goes to
    /// the book of its instrument: a trade passes through, a snapshot replaces
    /// the book, and a delta is applied, discarded or refused by its sequence
    /// numbers. A delta that leaves a gap drops the book, puts a request for a
    /// new snapshot on the outbound queue and is reported as an error.
    pub fn transform(&mut self, update: &Update) -> (out: Transformed)
        requires
            old(self).wf(),
        ensures
            Self::transforms(*old(self), *final(self), *update, out),
    {
        let ghost before = *self;
        let instrument = match self.map.find(&update.id) {
            Some(instrument) => instrument,
            None => {
                return Transformed {
                    item: Some(Err(DataError::Unidentifiable(update.id.duplicate()))),
                    resync: Resync::NotNeeded,
                };
            },
        };
        let ghost model = self.books@[instrument as int]@;
        assert(before.books_of()[instrument as int] == model);
        match &update.payload {
            Payload::Trade(trade) => {
                assert(self.books_of() =~= before.books_of().update(instrument as int, model));
                Transformed {
                    item: Some(Ok(Market { instrument, event: Event::Trade(*trade) })),
                    resync: Resync::NotNeeded,
                }
            },
            Payload::Snapshot(snapshot) => {
                self.books[instrument].apply_snapshot(snapshot);
                proof {
                    Self::lemma_books_after(before, *self, instrument as int);
                }
                let event = book_event(self.books[instrument].book(), snapshot.last_seq);
                Transformed { item: Some(Ok(Market { instrument, event })), resync: Resync::NotNeeded }
            },
            Payload::Delta(delta) => {
                let outcome = self.books[instrument].apply_delta(delta);
                proof {
                    Self::lemma_books_after(before, *self, instrument as int);
                }
                match outcome {
                    DeltaOutcome::Applied => {
                        let event = match self.granularity {
                            Granularity::Diff => Event::BookDelta {
                                first_seq: delta.first_seq,
                                last_seq: delta.last_seq,
                                bids: copy_levels(&delta.bids),
                                asks: copy_levels(&delta.asks),
                            },
                            Granularity::Snapshot => book_event(
                                self.books[instrument].book(),
                                delta.last_seq,
                            ),
                        };
                        Transformed { item: Some(Ok(Market { instrument, event })), resync: Resync::NotNeeded }
                    },
                    DeltaOutcome::Stale => Transformed { item: None, resync: Resync::NotNeeded },
                    DeltaOutcome::AwaitingSnapshot => Transformed { item: None, resync: Resync::NotNeeded },
                    DeltaOutcome::Gap { expected, received } => {
                        let request = OutboundMessage::Resync { instrument };
                        let resync = match enqueue(&self.queue, request) {
                            Ok(_) => Resync::Queued(instrument),
                            Err(_) => Resync::Refused(instrument),
                        };
                        Transformed {
                            item: Some(
                                Err(DataError::SequenceGap { instrument, expected, received }),
                            ),
                            resync,
                        }
                    },
                    _ => Transformed {
                        item: Some(
                            Err(
                                DataError::InvalidSequence {
                                    instrument,
                                    first_seq: delta.first_seq,
                                    last_seq: delta.last_seq,
                                },
                            ),
                        ),
                        resync: Resync::NotNeeded,
                    },
                }
            },
        }
    }
}

/// The state of the book that an update goes to, before the update.
pub open spec fn book_before(before: MultiBookTransformer, update: Update) -> BookModel {
    before.books_of()[before.map_of()[update.id@] as int]
}

/// A delta that starts after the expected sequence number of its book gives
/// exactly one item, the gap error with the instrument and both numbers, and
/// no event. It asks for one new snapshot of that instrument, drops the book
/// of that instrument and leaves every other book as it was.
pub proof fn lemma_gap_frame(
    before: MultiBookTransformer,
    after: MultiBookTransformer,
    update: Update,
    out: Transformed,
)
    requires
        MultiBookTransformer::transforms(before, after, update, out),
        before.map_of().dom().contains(update.id@),
        update.payload is Delta,
        book_before(before, update).synced,
        update.payload->Delta_0.first_seq <= update.payload->Delta_0.last_seq,
        update.payload->Delta_0.first_seq > expected(book_before(before, update)),
    ensures
        out.item == Some(
            Err::<Market, DataError>(
                DataError::SequenceGap {
                    instrument: before.map_of()[update.id@],
                    expected: expected(book_before(before, update)) as u64,
                    received: update.payload->Delta_0.first_seq,
                },
            ),
        ),
        !out.item->0->Err_0.fatal(),
        out.resync.wanted() == Some(before.map_of()[update.id@]),
        after.books_of() == before.books_of().update(
            before.map_of()[update.id@] as int,
            unsynced(),
        ),
{
}

/// While a book waits for a snapshot, a delta for it changes no book, asks
/// for no snapshot and gives no event; a snapshot for it sets the book to
/// that snapshot and nothing else.
pub proof fn lemma_frame_while_waiting(
    before: MultiBookTransformer,
    after: MultiBookTransformer,
    update: Update,
    out: Transformed,
)
    requires
        MultiBookTransformer::transforms(before, after, update, out),
        before.map_of().dom().contains(update.id@),
        !book_before(before, update).synced,
    ensures
        out.resync == Resync::NotNeeded,
        update.payload is Delta ==> after.books_of() == before.books_of() && !(out.item matches Some(
            Ok(_),
        )),
        update.payload matches Payload::Snapshot(snapshot) ==> after.books_of()
            == before.books_of().update(
            before.map_of()[update.id@] as int,
            after_snapshot(snapshot@),
        ),
{
    if update.payload is Delta {
        assert(after.books_of() =~= before.books_of());
    }
}

/// A delta that ends before the expected sequence number of its book gives
/// no item and asks for no snapshot. The transformer is left as it was: its
/// books, its map and its granularity, so that every later update is treated
/// as if the delta had not come.
pub proof fn lemma_stale_frame(
    before: MultiBookTransformer,
    after: MultiBookTransformer,
    update: Update,
    out: Transformed,
)
    requires
        MultiBookTransformer::transforms(before, after, update, out),
        before.map_of().dom().contains(update.id@),
        update.payload is Delta,
        book_before(before, update).synced,
        update.payload->Delta_0.first_seq <= update.payload->Delta_0.last_seq,
        update.payload->Delta_0.last_seq < expected(book_before(before, update)),
    ensures
        out.item is None,
        out.resync == Resync::NotNeeded,
        after.books_of() == before.books_of(),
        after.map_of() == before.map_of(),
        after.granularity_of() == before.granularity_of(),
        forall|later: Update, next: MultiBookTransformer, given: Transformed|
            MultiBookTransformer::transforms(after, next, later, given)
                == MultiBookTransformer::transforms(before, next, later, given),
{
    assert(after.books_of() =~= before.books_of());
}

/// A delta that starts at the expected sequence number of its book gives one
/// event of its instrument and no error, and takes the book on by the delta.
pub proof fn lemma_applied_frame(
    before: MultiBookTransformer,
    after: MultiBookTransformer,
    update: Update,
    out: Transformed,
)
    requires
        MultiBookTransformer::transforms(before, after, update, out),
        before.map_of().dom().contains(update.id@),
        update.payload is Delta,
        book_before(before, update).synced,
        update.payload->Delta_0.first_seq <= update.payload->Delta_0.last_seq,
        update.payload->Delta_0.first_seq == expected(book_before(before, update)),
    ensures
        out.item matches Some(Ok(market)) && market.instrument == before.map_of()[update.id@],
        out.resync == Resync::NotNeeded,
        after.books_of() == before.books_of().update(
            before.map_of()[update.id@] as int,
            after_delta(book_before(before, update), update.payload->Delta_0@),
        ),
{
}

/// The state of every book after a list of updates, first to last: each
/// update whose name resolves takes the book of its instrument on, and every
/// other update changes nothing.
pub open spec fn books_after(
    map: Map<(Seq<char>, Seq<char>), usize>,
    books: Seq<BookModel>,
    updates: Seq<Update>,
) -> Seq<BookModel>
    decreases updates.len(),
{
    if updates.len() == 0 {
        books
    } else {
        let earlier = books_after(map, books, updates.drop_last());
        let update = updates.last();
        if map.dom().contains(update.id@) {
            earlier.update(
                map[update.id@] as int,
                next_model(earlier[map[update.id@] as int], update.payload),
            )
        } else {
            earlier
        }
    }
}

/// The item that one update gives, where `books` is the state of every book
/// before it: the error that holds the name where the name resolves to
/// nothing, and the item of its instrument and payload otherwise.
pub open spec fn item_of(
    map: Map<(Seq<char>, Seq<char>), usize>,
    granularity: Granularity,
    books: Seq<BookModel>,
    update: Update,
    item: Option<Result<Market, DataError>>,
) -> bool {
    if map.dom().contains(update.id@) {
        item_for(
            item,
            map[update.id@],
            books[map[update.id@] as int],
            update.payload,
            granularity,
        )
    } else {
        &&& item matches Some(Err(DataError::Unidentifiable(id)))
        &&& id@ == update.id@
    }
}

/// `items` are the items that a list of updates gives, in the order of the
/// updates: each update adds its item behind those of the updates before it,
/// or nothing where it gives none.
pub open spec fn items_of(
    map: Map<(Seq<char>, Seq<char>), usize>,
    granularity: Granularity,
    books: Seq<BookModel>,
    updates: Seq<Update>,
    items: Seq<Result<Market, DataError>>,
) -> bool
    decreases updates.len(),
{
    if updates.len() == 0 {
        items.len() == 0
    } else {
        let earlier = books_after(map, books, updates.drop_last());
        ||| {
            &&& items.len() > 0
            &&& items_of(map, granularity, books, updates.drop_last(), items.drop_last())
            &&& item_of(map, granularity, earlier, updates.last(), Some(items.last()))
        }
        ||| {
            &&& items_of(map, granularity, books, updates.drop_last(), items)
            &&& item_of(map, granularity, earlier, updates.last(), None)
        }
    }
}

/// Whether an update's name resolves to `instrument`.
pub open spec fn goes_to(
    map: Map<(Seq<char>, Seq<char>), usize>,
    instrument: usize,
    update: Update,
) -> bool {
    map.dom().contains(update.id@) && map[update.id@] == instrument
}

/// The deltas of `instrument` in a list of updates, in the order of the list.
/// Updates of other instruments, and updates whose names resolve to nothing,
/// are passed over.
pub open spec fn own_deltas(
    map: Map<(Seq<char>, Seq<char>), usize>,
    instrument: usize,
    updates: Seq<Update>,
) -> Seq<DeltaView>
    decreases updates.len(),
{
    if updates.len() == 0 {
        Seq::empty()
    } else if goes_to(map, instrument, updates.last()) {
        own_deltas(map, instrument, updates.drop_last()).push(updates.last().payload->Delta_0@)
    } else {
        own_deltas(map, instrument, updates.drop_last())
    }
}

/// Every update of the list that goes to `instrument` is a delta.
pub open spec fn only_deltas_for(
    map: Map<(Seq<char>, Seq<char>), usize>,
    instrument: usize,
    updates: Seq<Update>,
) -> bool {
    forall|k: int|
        0 <= k < updates.len() && goes_to(map, instrument, #[trigger] updates[k])
            ==> updates[k].payload is Delta
}

/// A list of updates changes the state of books, not their number.
pub proof fn lemma_books_stay(
    map: Map<(Seq<char>, Seq<char>), usize>,
    books: Seq<BookModel>,
    updates: Seq<Update>,
)
    requires
        forall|key: (Seq<char>, Seq<char>)| #[trigger]
            map.dom().contains(key) ==> map[key] < books.len(),
    ensures
        books_after(map, books, updates).len() == books.len(),
    decreases updates.len(),
{
    if updates.len() > 0 {
        lemma_books_stay(map, books, updates.drop_last());
    }
}

/// A snapshot of an instrument and, after it, deltas of that instrument in
/// sequence leave its book as the one consolidated snapshot would, as of the
/// last sequence number covered. This holds whatever came before the
/// snapshot, and whatever updates of other instruments stand between.
pub proof fn lemma_frames_rebuild_book(
    map: Map<(Seq<char>, Seq<char>), usize>,
    books: Seq<BookModel>,
    earlier: Seq<Update>,
    first: Update,
    rest: Seq<Update>,
)
    requires
        forall|key: (Seq<char>, Seq<char>)| #[trigger]
            map.dom().contains(key) ==> map[key] < books.len(),
        map.dom().contains(first.id@),
        first.payload is Snapshot,
        only_deltas_for(map, map[first.id@], rest),
        contiguous(first.payload->Snapshot_0.last_seq, own_deltas(map, map[first.id@], rest)),
    ensures
        books_after(map, books, earlier + seq![first] + rest)[map[first.id@] as int]
            == after_snapshot(
            consolidated(first.payload->Snapshot_0@, own_deltas(map, map[first.id@], rest)),
        ),
    decreases rest.len(),
{
    let instrument = map[first.id@];
    let snapshot = first.payload->Snapshot_0@;
    let frames = earlier + seq![first] + rest;
    if rest.len() == 0 {
        assert(frames.drop_last() =~= earlier);
        assert(frames.last() == first);
        lemma_books_stay(map, books, earlier);
    } else {
        let before = rest.drop_last();
        let update = rest.last();
        assert(frames.drop_last() =~= earlier + seq![first] + before);
        assert(frames.last() == update);
        assert(only_deltas_for(map, instrument, before)) by {
            assert forall|k: int|
                0 <= k < before.len() && goes_to(
                    map,
                    instrument,
                    #[trigger] before[k],
                ) implies before[k].payload is Delta by {
                assert(before[k] == rest[k]);
            }
        }
        if goes_to(map, instrument, update) {
            assert(own_deltas(map, instrument, rest).drop_last() =~= own_deltas(
                map,
                instrument,
                before,
            ));
        }
        lemma_frames_rebuild_book(map, books, earlier, first, before);
        lemma_books_stay(map, books, frames.drop_last());
        let held = books_after(map, books, frames.drop_last());
        if goes_to(map, instrument, update) {
            assert(update == rest[rest.len() - 1]);
            let delta = update.payload->Delta_0@;
            lemma_replay_is_consolidated_snapshot(snapshot, own_deltas(map, instrument, before));
            let merged = consolidated(snapshot, own_deltas(map, instrument, before));
            lemma_apply_levels_concat(Map::empty(), merged.bids, delta.bids);
            lemma_apply_levels_concat(Map::empty(), merged.asks, delta.asks);
            assert(held[instrument as int] == after_snapshot(merged));
            assert(after_delta(after_snapshot(merged), delta) == after_snapshot(
                consolidated(snapshot, own_deltas(map, instrument, rest)),
            ));
        }
    }
}

} // verus!
