use crate::book::{apply_levels, lemma_apply_levels_concat, Level, OrderBook};
use vstd::prelude::*;

verus! {

/// A full picture of a book, as of the update numbered `last_seq`.
#[derive(Debug)]
pub struct Snapshot {
    pub last_seq: u64,
    pub bids: Vec<Level>,
    pub asks: Vec<Level>,
}

/// An incremental update that covers the sequence numbers `first_seq` to
/// `last_seq`.
#[derive(Debug)]
pub struct Delta {
    pub first_seq: u64,
    pub last_seq: u64,
    pub bids: Vec<Level>,
    pub asks: Vec<Level>,
}

pub struct SnapshotView {
    pub last_seq: u64,
    pub bids: Seq<Level>,
    pub asks: Seq<Level>,
}

pub struct DeltaView {
    pub first_seq: u64,
    pub last_seq: u64,
    pub bids: Seq<Level>,
    pub asks: Seq<Level>,
}

impl View for Snapshot {
    type V = SnapshotView;

    open spec fn view(&self) -> SnapshotView {
        SnapshotView { last_seq: self.last_seq, bids: self.bids@, asks: self.asks@ }
    }
}

impl View for Delta {
    type V = DeltaView;

    open spec fn view(&self) -> DeltaView {
        DeltaView {
            first_seq: self.first_seq,
            last_seq: self.last_seq,
            bids: self.bids@,
            asks: self.asks@,
        }
    }
}

/// What a sequenced book stands for: whether it holds a book at all, the depth
/// of each side, and the last sequence number applied.
pub struct BookModel {
    pub synced: bool,
    pub bids: Map<u64, u64>,
    pub asks: Map<u64, u64>,
    pub last_applied: u64,
}

/// What became of a delta.
#[derive(Clone, Copy, Debug, PartialEq, Eq, Structural)]
pub enum DeltaOutcome {
    /// It started at the expected sequence number and was applied.
    Applied,
    /// It ended before the expected sequence number: all of it was applied
    /// before, and it is discarded.
    Stale,
    /// It started before the expected sequence number and ended at or after
    /// it. It is not applied.
    Overlapping,
    /// It started after the expected sequence number: updates are missing. The
    /// book is dropped and a new snapshot is needed.
    Gap { expected: u64, received: u64 },
    /// The book holds no snapshot yet. The delta is not applied.
    AwaitingSnapshot,
    /// It ends before it starts. It is not applied.
    Malformed,
}

/// The state without a book.
pub open spec fn unsynced() -> BookModel {
    BookModel { synced: false, bids: Map::empty(), asks: Map::empty(), last_applied: 0 }
}

/// The sequence number at which the next delta has to start.
pub open spec fn expected(model: BookModel) -> int {
    model.last_applied + 1
}

/// The outcome of a delta that covers `first_seq` to `last_seq`. The rules are
/// tried in this order, and the first that fits decides. A range that ends
/// before it starts is malformed, wherever it lies. A book without a snapshot
/// waits. A delta that starts at the expected sequence number is applied; one
/// that starts after it leaves a gap; one that ends before it is stale. What
/// is left starts before the expected number and ends at or after it: it
/// overlaps what was applied.
pub open spec fn outcome_of(model: BookModel, first_seq: u64, last_seq: u64) -> DeltaOutcome {
    if first_seq > last_seq {
        DeltaOutcome::Malformed
    } else if !model.synced {
        DeltaOutcome::AwaitingSnapshot
    } else if first_seq == expected(model) {
        DeltaOutcome::Applied
    } else if first_seq > expected(model) {
        DeltaOutcome::Gap { expected: (model.last_applied + 1) as u64, received: first_seq }
    } else if last_seq < expected(model) {
        DeltaOutcome::Stale
    } else {
        DeltaOutcome::Overlapping
    }
}

/// The state after a snapshot: its levels, and nothing of what was there.
pub open spec fn after_snapshot(snapshot: SnapshotView) -> BookModel {
    BookModel {
        synced: true,
        bids: apply_levels(Map::empty(), snapshot.bids),
        asks: apply_levels(Map::empty(), snapshot.asks),
        last_applied: snapshot.last_seq,
    }
}

/// The state after a delta.
pub open spec fn after_delta(model: BookModel, delta: DeltaView) -> BookModel {
    match outcome_of(model, delta.first_seq, delta.last_seq) {
        DeltaOutcome::Applied => BookModel {
            synced: true,
            bids: apply_levels(model.bids, delta.bids),
            asks: apply_levels(model.asks, delta.asks),
            last_applied: delta.last_seq,
        },
        DeltaOutcome::Gap { .. } => unsynced(),
        _ => model,
    }
}

/// The state after a list of deltas, first to last.
pub open spec fn replay(model: BookModel, deltas: Seq<DeltaView>) -> BookModel
    decreases deltas.len(),
{
    if deltas.len() == 0 {
        model
    } else {
        after_delta(replay(model, deltas.drop_last()), deltas.last())
    }
}

/// The last sequence number that a list of deltas covers, `start` where the
/// list is empty.
pub open spec fn final_seq(start: u64, deltas: Seq<DeltaView>) -> u64 {
    if deltas.len() == 0 {
        start
    } else {
        deltas.last().last_seq
    }
}

/// Each delta starts right after the one before it ends, the first of them
/// right after `start`, and none ends before it starts.
pub open spec fn contiguous(start: u64, deltas: Seq<DeltaView>) -> bool
    decreases deltas.len(),
{
    deltas.len() == 0 || {
        &&& contiguous(start, deltas.drop_last())
        &&& deltas.last().first_seq == final_seq(start, deltas.drop_last()) + 1
        &&& deltas.last().first_seq <= deltas.last().last_seq
    }
}

/// One snapshot that stands for a snapshot and the deltas after it: the
/// snapshot's levels followed by those of each delta, as of the last sequence
/// number covered.
pub open spec fn consolidated(snapshot: SnapshotView, deltas: Seq<DeltaView>) -> SnapshotView
    decreases deltas.len(),
{
    if deltas.len() == 0 {
        snapshot
    } else {
        let before = consolidated(snapshot, deltas.drop_last());
        SnapshotView {
            last_seq: deltas.last().last_seq,
            bids: before.bids + deltas.last().bids,
            asks: before.asks + deltas.last().asks,
        }
    }
}

/// The order book of one instrument, rebuilt from a snapshot and the deltas
/// that follow it in sequence.
#[derive(Debug)]
pub struct SequencedBook {
    book: OrderBook,
    last_applied: u64,
    synced: bool,
}

impl SequencedBook {
    /// The book is well formed, and without a snapshot it is empty.
    pub closed spec fn wf(&self) -> bool {
        &&& self.book.wf()
        &&& !self.synced ==> {
            &&& self.book@.bids == Map::<u64, u64>::empty()
            &&& self.book@.asks == Map::<u64, u64>::empty()
            &&& self.last_applied == 0
        }
    }

    pub closed spec fn view(&self) -> BookModel {
        BookModel {
            synced: self.synced,
            bids: self.book@.bids,
            asks: self.book@.asks,
            last_applied: self.last_applied,
        }
    }

    /// A book that waits for its first snapshot.
    pub fn new() -> (book: SequencedBook)
        ensures
            book.wf(),
            book@ == unsynced(),
    {
        SequencedBook { book: OrderBook::new(), last_applied: 0, synced: false }
    }

    /// Whether the book holds a snapshot.
    pub fn is_synced(&self) -> (synced: bool)
        ensures
            synced == self@.synced,
    {
        self.synced
    }

    /// The last sequence number applied.
    pub fn last_applied(&self) -> (seq: u64)
        ensures
            seq == self@.last_applied,
    {
        self.last_applied
    }

    /// The book as it stands.
    pub fn book(&self) -> (book: &OrderBook)
        requires
            self.wf(),
        ensures
            book.wf(),
            book@.bids == self@.bids,
            book@.asks == self@.asks,
    {
        &self.book
    }

    /// Replaces the book by a snapshot.
    pub fn apply_snapshot(&mut self, snapshot: &Snapshot)
        requires
            old(self).wf(),
        ensures
            final(self).wf(),
            final(self)@ == after_snapshot(snapshot@),
    {
        self.book.clear();
        self.book.apply(&snapshot.bids, &snapshot.asks);
        self.last_applied = snapshot.last_seq;
        self.synced = true;
    }

    /// Drops the book: it waits for a snapshot again.
    pub fn invalidate(&mut self)
        requires
            old(self).wf(),
        ensures
            final(self).wf(),
            final(self)@ == unsynced(),
    {
        self.book.clear();
        self.last_applied = 0;
        self.synced = false;
    }

    /// Takes one delta. It is applied only where it starts at the expected
    /// sequence number; where it starts later the book is dropped; in every
    /// other case the book stays as it is.
    pub fn apply_delta(&mut self, delta: &Delta) -> (outcome: DeltaOutcome)
        requires
            old(self).wf(),
        ensures
            final(self).wf(),
            outcome == outcome_of(old(self)@, delta.first_seq, delta.last_seq),
            final(self)@ == after_delta(old(self)@, delta@),
    {
        if delta.first_seq > delta.last_seq {
            DeltaOutcome::Malformed
        } else if !self.synced {
            DeltaOutcome::AwaitingSnapshot
        } else if delta.last_seq <= self.last_applied {
            DeltaOutcome::Stale
        } else if delta.first_seq <= self.last_applied {
            DeltaOutcome::Overlapping
        } else if delta.first_seq - 1 == self.last_applied {
            self.book.apply(&delta.bids, &delta.asks);
            self.last_applied = delta.last_seq;
            DeltaOutcome::Applied
        } else {
            let expected: u64 = self.last_applied + 1;
            self.invalidate();
            DeltaOutcome::Gap { expected, received: delta.first_seq }
        }
    }
}

/// A delta that starts after the expected sequence number is a gap: the book
/// is dropped, and until a snapshot arrives no delta is applied and none is a
/// gap again.
pub proof fn lemma_gap_drops_book(model: BookModel, delta: DeltaView, later: DeltaView)
    requires
        model.synced,
        delta.first_seq <= delta.last_seq,
        delta.first_seq > expected(model),
    ensures
        outcome_of(model, delta.first_seq, delta.last_seq) == (DeltaOutcome::Gap {
            expected: expected(model) as u64,
            received: delta.first_seq,
        }),
        after_delta(model, delta) == unsynced(),
        !(outcome_of(unsynced(), later.first_seq, later.last_seq) is Gap),
        !(outcome_of(unsynced(), later.first_seq, later.last_seq) is Applied),
        after_delta(unsynced(), later) == unsynced(),
{
}

/// A delta that ends before the expected sequence number changes nothing:
/// neither the book nor the expected sequence number. On a book that holds a
/// snapshot it is stale.
pub proof fn lemma_stale_changes_nothing(model: BookModel, delta: DeltaView)
    requires
        delta.first_seq <= delta.last_seq,
        delta.last_seq < expected(model),
    ensures
        after_delta(model, delta) == model,
        expected(after_delta(model, delta)) == expected(model),
        model.synced ==> outcome_of(model, delta.first_seq, delta.last_seq) == DeltaOutcome::Stale,
{
}

/// Deltas applied in sequence after a snapshot give the book that the one
/// consolidated snapshot gives, as of the same sequence number.
pub proof fn lemma_replay_is_consolidated_snapshot(snapshot: SnapshotView, deltas: Seq<DeltaView>)
    requires
        contiguous(snapshot.last_seq, deltas),
    ensures
        replay(after_snapshot(snapshot), deltas) == after_snapshot(consolidated(snapshot, deltas)),
        consolidated(snapshot, deltas).last_seq == final_seq(snapshot.last_seq, deltas),
    decreases deltas.len(),
{
    if deltas.len() > 0 {
        let earlier = deltas.drop_last();
        let delta = deltas.last();
        lemma_replay_is_consolidated_snapshot(snapshot, earlier);
        let before = consolidated(snapshot, earlier);
        lemma_apply_levels_concat(Map::empty(), before.bids, delta.bids);
        lemma_apply_levels_concat(Map::empty(), before.asks, delta.asks);
    }
}

} // verus!
