use crate::error::DataError;
use crate::subscription::ResolutionMap;
use crate::transformer::{
    books_after, items_of, Granularity, Market, MultiBookTransformer, OutboundMessage, Resync,
    Transformed, Update,
};
use std::collections::VecDeque;
use tokio::sync::mpsc::UnboundedSender;
use vstd::prelude::*;

verus! {

/// A stream of normalised market events, set up over the outbound queue of
/// its connection and the resolution map of the accepted subscriptions.
pub trait MarketStream: Sized {
    fn init(queue: UnboundedSender<OutboundMessage>, map: ResolutionMap) -> Result<Self, DataError>
        requires
            map.wf(),
    ;
}

/// What a poll of the pipeline gives.
#[derive(Debug)]
pub enum Polled {
    /// The next item of the stream.
    Item(Result<Market, DataError>),
    /// Nothing is buffered: the next frame has to be fed first.
    Pending,
    /// The stream has ended.
    Finished,
}

/// The items in `now` that are not in `before`, where `now` is `before` with
/// at most one item behind it.
pub open spec fn appended(
    before: Seq<Result<Market, DataError>>,
    now: Seq<Result<Market, DataError>>,
) -> Option<Result<Market, DataError>> {
    if now.len() > before.len() {
        Some(now.last())
    } else {
        None
    }
}

/// The pipeline that callers consume: updates go in one at a time, in the
/// order of their arrival, and come out as stream items. An item that is a
/// fatal error is the last one.
pub struct MarketPipeline {
    transformer: MultiBookTransformer,
    buffer: VecDeque<Result<Market, DataError>>,
    terminated: bool,
}

impl MarketPipeline {
    pub closed spec fn wf(&self) -> bool {
        self.transformer.wf()
    }

    pub closed spec fn transformer_of(&self) -> MultiBookTransformer {
        self.transformer
    }

    /// The items that wait to be polled, oldest first.
    pub closed spec fn buffered(&self) -> Seq<Result<Market, DataError>> {
        self.buffer@
    }

    /// Whether the stream has ended.
    pub closed spec fn finished(&self) -> bool {
        self.terminated
    }

    /// A pipeline around a transformer, with nothing buffered.
    pub fn new(transformer: MultiBookTransformer) -> (pipeline: MarketPipeline)
        requires
            transformer.wf(),
        ensures
            pipeline.wf(),
            pipeline.transformer_of() == transformer,
            pipeline.buffered() == Seq::<Result<Market, DataError>>::empty(),
            !pipeline.finished(),
    {
        MarketPipeline { transformer, buffer: VecDeque::new(), terminated: false }
    }

    /// The transformer as it stands.
    pub fn transformer(&self) -> (transformer: &MultiBookTransformer)
        requires
            self.wf(),
        ensures
            transformer.wf(),
            *transformer == self.transformer_of(),
    {
        &self.transformer
    }

    /// Takes one update in: it goes through the transformer, and the item
    /// that it gives, if any, is buffered behind those that wait. Returns what
    /// became of the request for a new snapshot, where the update called for
    /// one.
    pub fn feed(&mut self, update: &Update) -> (resync: Resync)
        requires
            old(self).wf(),
        ensures
            final(self).wf(),
            final(self).finished() == old(self).finished(),
            old(self).buffered().len() <= final(self).buffered().len() <= old(
                self,
            ).buffered().len() + 1,
            final(self).buffered().take(old(self).buffered().len() as int) == old(self).buffered(),
            MultiBookTransformer::transforms(
                old(self).transformer_of(),
                final(self).transformer_of(),
                *update,
                (Transformed {
                    item: appended(old(self).buffered(), final(self).buffered()),
                    resync,
                }),
            ),
    {
        let out = self.transformer.transform(update);
        let ghost before = self.buffer@;
        let resync = out.resync;
        match out.item {
            Some(item) => {
                self.buffer.push_back(item);
                proof {
                    assert(self.buffer@.take(before.len() as int) == before);
                }
            },
            None => {
                proof {
                    assert(self.buffer@.take(before.len() as int) == before);
                }
            },
        }
        resync
    }

    /// Takes the updates of one frame in, first to last. The books stand as the
    /// list of updates leaves them, and the items that the updates give are
    /// buffered, in the order of the updates, behind those that wait.
    pub fn feed_all(&mut self, updates: &Vec<Update>)
        requires
            old(self).wf(),
        ensures
            final(self).wf(),
            final(self).finished() == old(self).finished(),
            final(self).transformer_of().queue_of() == old(self).transformer_of().queue_of(),
            final(self).transformer_of().map_of() == old(self).transformer_of().map_of(),
            final(self).transformer_of().granularity_of() == old(
                self,
            ).transformer_of().granularity_of(),
            final(self).transformer_of().books_of() == books_after(
                old(self).transformer_of().map_of(),
                old(self).transformer_of().books_of(),
                updates@,
            ),
            old(self).buffered().len() <= final(self).buffered().len(),
            final(self).buffered().take(old(self).buffered().len() as int) == old(self).buffered(),
            items_of(
                old(self).transformer_of().map_of(),
                old(self).transformer_of().granularity_of(),
                old(self).transformer_of().books_of(),
                updates@,
                final(self).buffered().skip(old(self).buffered().len() as int),
            ),
    {
        let ghost map = self.transformer_of().map_of();
        let ghost granularity = self.transformer_of().granularity_of();
        let ghost books = self.transformer_of().books_of();
        let ghost waiting = self.buffered();
        let mut k: usize = 0;
        proof {
            assert(self.buffered().take(waiting.len() as int) == waiting);
            assert(self.buffered().skip(waiting.len() as int).len() == 0);
        }
        while k < updates.len()
            invariant
                k <= updates.len(),
                self.wf(),
                self.finished() == old(self).finished(),
                self.transformer_of().queue_of() == old(self).transformer_of().queue_of(),
                self.transformer_of().map_of() == map,
                self.transformer_of().granularity_of() == granularity,
                self.transformer_of().books_of() == books_after(map, books, updates@.take(k as int)),
                waiting.len() <= self.buffered().len(),
                self.buffered().take(waiting.len() as int) == waiting,
                items_of(
                    map,
                    granularity,
                    books,
                    updates@.take(k as int),
                    self.buffered().skip(waiting.len() as int),
                ),
            decreases updates.len() - k,
        {
            let ghost before = self.buffered();
            self.feed(&updates[k]);
            proof {
                let taken = updates@.take(k + 1);
                assert(taken.drop_last() == updates@.take(k as int));
                assert(taken.last() == updates@[k as int]);
                let items = self.buffered().skip(waiting.len() as int);
                let earlier = before.skip(waiting.len() as int);
                assert(self.buffered().take(waiting.len() as int) == self.buffered().take(
                    before.len() as int,
                ).take(waiting.len() as int));
                if self.buffered().len() > before.len() {
                    assert(items.drop_last() == self.buffered().take(before.len() as int).skip(
                        waiting.len() as int,
                    ));
                    assert(items.last() == self.buffered().last());
                } else {
                    assert(self.buffered() == self.buffered().take(before.len() as int));
                }
            }
            k = k + 1;
        }
        proof {
            assert(updates@.take(k as int) == updates@);
        }
    }

    /// Buffers an error that arose outside the transformer, such as a frame
    /// that could not be parsed, behind the items that wait.
    pub fn report(&mut self, error: DataError)
        ensures
            final(self).wf() == old(self).wf(),
            final(self).transformer_of() == old(self).transformer_of(),
            final(self).finished() == old(self).finished(),
            final(self).buffered() == old(self).buffered().push(Err(error)),
    {
        self.buffer.push_back(Err(error));
    }

    /// Gives the next item. An error that is not fatal is one failed item, and
    /// the stream goes on; a fatal error is the last item of the stream.
    pub fn poll(&mut self) -> (polled: Polled)
        ensures
            final(self).wf() == old(self).wf(),
            final(self).transformer_of() == old(self).transformer_of(),
            old(self).finished() ==> {
                &&& polled is Finished
                &&& final(self).finished()
                &&& final(self).buffered() == old(self).buffered()
            },
            !old(self).finished() && old(self).buffered().len() == 0 ==> {
                &&& polled is Pending
                &&& !final(self).finished()
                &&& final(self).buffered() == old(self).buffered()
            },
            !old(self).finished() && old(self).buffered().len() > 0 ==> {
                &&& polled == Polled::Item(old(self).buffered()[0])
                &&& final(self).buffered() == old(self).buffered().drop_first()
                &&& final(self).finished() == ends_stream(old(self).buffered()[0])
            },
    {
        if self.terminated {
            return Polled::Finished;
        }
        match self.buffer.pop_front() {
            Some(item) => {
                if let Err(error) = &item {
                    self.terminated = error.is_fatal();
                }
                Polled::Item(item)
            },
            None => Polled::Pending,
        }
    }
}

/// Whether an item is the last of its stream: it is a fatal error.
pub open spec fn ends_stream(item: Result<Market, DataError>) -> bool {
    match item {
        Ok(_) => false,
        Err(error) => error.fatal(),
    }
}

impl MarketStream for MarketPipeline {
    /// A pipeline whose books all wait for their first snapshot.
    fn init(queue: UnboundedSender<OutboundMessage>, map: ResolutionMap) -> (stream: Result<
        Self,
        DataError,
    >)
        ensures
            stream matches Ok(pipeline) && pipeline.wf() && pipeline.transformer_of().queue_of()
                == queue && pipeline.transformer_of().map_of() == map@ && pipeline.transformer_of().granularity_of() == Granularity::Diff
                && pipeline.transformer_of().books_of() == Seq::new(
                map.subscribed_of() as nat,
                |i: int| crate::sequence::unsynced(),
            ) && pipeline.buffered() == Seq::<Result<Market, DataError>>::empty()
                && !pipeline.finished(),
    {
        Ok(MarketPipeline::new(MultiBookTransformer::new(queue, map)))
    }
}

/// The steps that set a market stream up, in the order in which they are
/// taken.
#[derive(Clone, Copy, Debug, PartialEq, Eq, Structural)]
pub enum InitStep {
    /// Connect and subscribe, which gives the socket and the resolution map.
    Subscribe,
    /// Split the socket and start the task that sends queued messages.
    SpawnDistributor,
    /// Start the task that sends custom pings.
    SpawnPings,
    /// Make the transformer from the queue's sender and the resolution map.
    BuildTransformer,
    /// Hand the stream to the caller.
    Ready,
}

/// The step after `step` has succeeded. The ping task is started only for an
/// exchange with a custom ping policy.
pub open spec fn step_after(step: InitStep, custom_pings: bool) -> InitStep {
    match step {
        InitStep::Subscribe => InitStep::SpawnDistributor,
        InitStep::SpawnDistributor => if custom_pings {
            InitStep::SpawnPings
        } else {
            InitStep::BuildTransformer
        },
        InitStep::SpawnPings => InitStep::BuildTransformer,
        InitStep::BuildTransformer => InitStep::Ready,
        InitStep::Ready => InitStep::Ready,
    }
}

/// The steps taken from `step` on while each succeeds, `count` of them.
pub open spec fn steps_from(step: InitStep, custom_pings: bool, count: nat) -> Seq<InitStep>
    decreases count,
{
    if count == 0 {
        Seq::empty()
    } else {
        seq![step] + steps_from(step_after(step, custom_pings), custom_pings, (count - 1) as nat)
    }
}

impl InitStep {
    /// The first step.
    pub fn first() -> (step: InitStep)
        ensures
            step == InitStep::Subscribe,
    {
        InitStep::Subscribe
    }

    /// Takes the result of this step: a failure ends the initialisation with
    /// that error, before any stream exists; a success leads to the next step.
    pub fn advance(self, result: Result<(), DataError>, custom_pings: bool) -> (next: Result<
        InitStep,
        DataError,
    >)
        ensures
            next == match result {
                Ok(_) => Ok::<InitStep, DataError>(step_after(self, custom_pings)),
                Err(error) => Err::<InitStep, DataError>(error),
            },
    {
        match result {
            Ok(_) => Ok(
                match self {
                    InitStep::Subscribe => InitStep::SpawnDistributor,
                    InitStep::SpawnDistributor => if custom_pings {
                        InitStep::SpawnPings
                    } else {
                        InitStep::BuildTransformer
                    },
                    InitStep::SpawnPings => InitStep::BuildTransformer,
                    InitStep::BuildTransformer => InitStep::Ready,
                    InitStep::Ready => InitStep::Ready,
                },
            ),
            Err(error) => Err(error),
        }
    }
}

/// An initialisation in which every step succeeds subscribes first, starts the
/// distributor next, starts the pings only under a custom ping policy, makes
/// the transformer last, and is ready then.
pub proof fn lemma_init_order(custom_pings: bool)
    ensures
        custom_pings ==> steps_from(InitStep::Subscribe, custom_pings, 5) == seq![
            InitStep::Subscribe,
            InitStep::SpawnDistributor,
            InitStep::SpawnPings,
            InitStep::BuildTransformer,
            InitStep::Ready,
        ],
        !custom_pings ==> steps_from(InitStep::Subscribe, custom_pings, 4) == seq![
            InitStep::Subscribe,
            InitStep::SpawnDistributor,
            InitStep::BuildTransformer,
            InitStep::Ready,
        ],
{
    reveal_with_fuel(steps_from, 6);
    if custom_pings {
        assert(steps_from(InitStep::Subscribe, custom_pings, 5) =~= seq![
            InitStep::Subscribe,
            InitStep::SpawnDistributor,
            InitStep::SpawnPings,
            InitStep::BuildTransformer,
            InitStep::Ready,
        ]);
    } else {
        assert(steps_from(InitStep::Subscribe, custom_pings, 4) =~= seq![
            InitStep::Subscribe,
            InitStep::SpawnDistributor,
            InitStep::BuildTransformer,
            InitStep::Ready,
        ]);
    }
}

} // verus!
