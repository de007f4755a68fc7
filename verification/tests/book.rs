use barter_data::book::{precedes, BookSide, Level, OrderBook, Side};
use barter_data::sequence::{Delta, DeltaOutcome, SequencedBook, Snapshot};

fn level(price: u64, size: u64) -> Level {
    Level { price, size }
}

#[test]
fn bids_run_from_the_highest_price_down() {
    let mut side = BookSide::new(Side::Bid);
    side.apply_all(&vec![level(100, 1), level(103, 2), level(101, 3)]);
    assert_eq!(side.levels(), &vec![level(103, 2), level(101, 3), level(100, 1)]);
    assert_eq!(side.best(), Some(level(103, 2)));
    assert_eq!(side.side(), Side::Bid);
}

#[test]
fn asks_run_from_the_lowest_price_up() {
    let mut side = BookSide::new(Side::Ask);
    side.apply_all(&vec![level(105, 1), level(104, 2), level(110, 3)]);
    assert_eq!(side.levels(), &vec![level(104, 2), level(105, 1), level(110, 3)]);
    assert_eq!(side.best(), Some(level(104, 2)));
    assert_eq!(side.len(), 3);
}

#[test]
fn size_zero_removes_the_level() {
    let mut side = BookSide::new(Side::Ask);
    side.apply(level(10, 5));
    side.apply(level(11, 6));
    side.apply(level(10, 0));
    assert_eq!(side.levels(), &vec![level(11, 6)]);
    assert_eq!(side.size_at(10), 0);
    assert_eq!(side.size_at(11), 6);
}

#[test]
fn another_size_replaces_the_level() {
    let mut side = BookSide::new(Side::Bid);
    side.apply(level(10, 5));
    side.apply(level(10, 9));
    assert_eq!(side.levels(), &vec![level(10, 9)]);
    assert_eq!(side.size_at(10), 9);
}

#[test]
fn removing_an_absent_level_changes_nothing() {
    let mut side = BookSide::new(Side::Bid);
    side.apply(level(10, 5));
    side.apply(level(12, 0));
    side.apply(level(8, 0));
    assert_eq!(side.levels(), &vec![level(10, 5)]);
}

#[test]
fn an_empty_side_has_no_best_level() {
    let mut side = BookSide::new(Side::Ask);
    assert_eq!(side.best(), None);
    side.apply(level(1, 1));
    side.clear();
    assert_eq!(side.best(), None);
    assert_eq!(side.len(), 0);
}

#[test]
fn precedes_follows_the_side() {
    assert!(precedes(Side::Bid, 5, 4));
    assert!(!precedes(Side::Bid, 4, 5));
    assert!(!precedes(Side::Bid, 4, 4));
    assert!(precedes(Side::Ask, 4, 5));
    assert!(!precedes(Side::Ask, 5, 4));
}

#[test]
fn order_book_keeps_both_sides() {
    let mut book = OrderBook::new();
    book.apply(&vec![level(99, 1), level(100, 2)], &vec![level(102, 3), level(101, 4)]);
    assert_eq!(book.best_bid(), Some(level(100, 2)));
    assert_eq!(book.best_ask(), Some(level(101, 4)));
    assert_eq!(book.bids().levels(), &vec![level(100, 2), level(99, 1)]);
    assert_eq!(book.asks().levels(), &vec![level(101, 4), level(102, 3)]);
    book.clear();
    assert_eq!(book.best_bid(), None);
    assert_eq!(book.best_ask(), None);
}

fn snapshot(last_seq: u64, bids: Vec<Level>, asks: Vec<Level>) -> Snapshot {
    Snapshot { last_seq, bids, asks }
}

fn delta(first_seq: u64, last_seq: u64, bids: Vec<Level>, asks: Vec<Level>) -> Delta {
    Delta { first_seq, last_seq, bids, asks }
}

#[test]
fn deltas_in_sequence_equal_the_consolidated_snapshot() {
    let mut replayed = SequencedBook::new();
    replayed.apply_snapshot(&snapshot(10, vec![level(100, 1), level(99, 2)], vec![level(101, 3)]));
    let first = delta(11, 12, vec![level(100, 0), level(98, 7)], vec![level(102, 1)]);
    let second = delta(13, 13, vec![level(99, 5)], vec![level(101, 0), level(103, 2)]);
    assert_eq!(replayed.apply_delta(&first), DeltaOutcome::Applied);
    assert_eq!(replayed.apply_delta(&second), DeltaOutcome::Applied);

    let mut direct = SequencedBook::new();
    direct.apply_snapshot(&snapshot(
        13,
        vec![level(100, 1), level(99, 2), level(100, 0), level(98, 7), level(99, 5)],
        vec![level(101, 3), level(102, 1), level(101, 0), level(103, 2)],
    ));

    assert_eq!(replayed.last_applied(), 13);
    assert_eq!(direct.last_applied(), 13);
    assert_eq!(replayed.book().bids().levels(), direct.book().bids().levels());
    assert_eq!(replayed.book().asks().levels(), direct.book().asks().levels());
    assert_eq!(replayed.book().bids().levels(), &vec![level(99, 5), level(98, 7)]);
    assert_eq!(replayed.book().asks().levels(), &vec![level(102, 1), level(103, 2)]);
}

#[test]
fn a_gap_drops_the_book_once() {
    let mut book = SequencedBook::new();
    book.apply_snapshot(&snapshot(10, vec![level(100, 1)], vec![level(101, 1)]));
    let outcome = book.apply_delta(&delta(13, 14, vec![level(100, 2)], vec![]));
    assert_eq!(outcome, DeltaOutcome::Gap { expected: 11, received: 13 });
    assert!(!book.is_synced());
    assert_eq!(book.last_applied(), 0);
    assert_eq!(book.book().best_bid(), None);
    assert_eq!(book.book().best_ask(), None);

    let later = book.apply_delta(&delta(15, 15, vec![level(100, 3)], vec![]));
    assert_eq!(later, DeltaOutcome::AwaitingSnapshot);
    assert_eq!(book.book().best_bid(), None);

    book.apply_snapshot(&snapshot(20, vec![level(90, 1)], vec![]));
    assert!(book.is_synced());
    assert_eq!(book.apply_delta(&delta(21, 21, vec![level(91, 1)], vec![])), DeltaOutcome::Applied);
    assert_eq!(book.book().best_bid(), Some(level(91, 1)));
}

#[test]
fn a_stale_delta_changes_nothing() {
    let mut book = SequencedBook::new();
    book.apply_snapshot(&snapshot(10, vec![level(100, 1)], vec![level(101, 1)]));
    let outcome = book.apply_delta(&delta(8, 10, vec![level(100, 0)], vec![level(101, 0)]));
    assert_eq!(outcome, DeltaOutcome::Stale);
    assert!(book.is_synced());
    assert_eq!(book.last_applied(), 10);
    assert_eq!(book.book().bids().levels(), &vec![level(100, 1)]);
    assert_eq!(book.book().asks().levels(), &vec![level(101, 1)]);
}

#[test]
fn an_overlapping_delta_is_not_applied() {
    let mut book = SequencedBook::new();
    book.apply_snapshot(&snapshot(10, vec![level(100, 1)], vec![]));
    let outcome = book.apply_delta(&delta(9, 12, vec![level(100, 0)], vec![]));
    assert_eq!(outcome, DeltaOutcome::Overlapping);
    assert_eq!(book.last_applied(), 10);
    assert_eq!(book.book().bids().levels(), &vec![level(100, 1)]);
}

#[test]
fn a_delta_that_ends_before_it_starts_is_malformed() {
    let mut book = SequencedBook::new();
    book.apply_snapshot(&snapshot(10, vec![level(100, 1)], vec![]));
    let outcome = book.apply_delta(&delta(11, 10, vec![level(100, 0)], vec![]));
    assert_eq!(outcome, DeltaOutcome::Malformed);
    assert_eq!(book.last_applied(), 10);
    assert!(book.is_synced());
}

#[test]
fn a_delta_before_any_snapshot_waits() {
    let mut book = SequencedBook::new();
    let outcome = book.apply_delta(&delta(1, 1, vec![level(100, 1)], vec![]));
    assert_eq!(outcome, DeltaOutcome::AwaitingSnapshot);
    assert!(!book.is_synced());
    assert_eq!(book.book().best_bid(), None);
}

#[test]
fn the_last_sequence_number_has_no_successor() {
    let mut book = SequencedBook::new();
    book.apply_snapshot(&snapshot(u64::MAX - 1, vec![], vec![]));
    let applied = book.apply_delta(&delta(u64::MAX, u64::MAX, vec![level(1, 1)], vec![]));
    assert_eq!(applied, DeltaOutcome::Applied);
    assert_eq!(book.last_applied(), u64::MAX);
    let again = book.apply_delta(&delta(u64::MAX, u64::MAX, vec![level(1, 2)], vec![]));
    assert_eq!(again, DeltaOutcome::Stale);
    assert_eq!(book.book().best_bid(), Some(level(1, 1)));
}

#[test]
fn a_snapshot_replaces_what_was_there() {
    let mut book = SequencedBook::new();
    book.apply_snapshot(&snapshot(10, vec![level(100, 1)], vec![level(101, 1)]));
    book.apply_snapshot(&snapshot(5, vec![level(50, 2)], vec![]));
    assert_eq!(book.last_applied(), 5);
    assert_eq!(book.book().bids().levels(), &vec![level(50, 2)]);
    assert_eq!(book.book().best_ask(), None);
    book.invalidate();
    assert!(!book.is_synced());
}
