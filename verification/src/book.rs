use vstd::prelude::*;

verus! {

/// The side of an order book.
#[derive(Clone, Copy, Debug, PartialEq, Eq, Structural)]
pub enum Side {
    Bid,
    Ask,
}

/// One price level: a price in ticks and the size resting there. In an update,
/// size zero asks for the level's removal.
#[derive(Clone, Copy, Debug, PartialEq, Eq, Structural)]
pub struct Level {
    pub price: u64,
    pub size: u64,
}

/// Whether a level priced `a` comes before one priced `b` on `side`: bids run
/// from the highest price down, asks from the lowest price up.
pub open spec fn before(side: Side, a: u64, b: u64) -> bool {
    match side {
        Side::Bid => a > b,
        Side::Ask => a < b,
    }
}

/// Levels in the order of their side, one per price, none of them empty.
pub open spec fn ordered(side: Side, levels: Seq<Level>) -> bool {
    &&& forall|i: int, j: int|
        0 <= i < j < levels.len() ==> before(side, #[trigger] levels[i].price, #[trigger] levels[j].price)
    &&& forall|i: int| 0 <= i < levels.len() ==> (#[trigger] levels[i]).size != 0
}

pub open spec fn has_price(levels: Seq<Level>, price: u64) -> bool {
    exists|i: int| 0 <= i < levels.len() && (#[trigger] levels[i]).price == price
}

pub open spec fn index_of(levels: Seq<Level>, price: u64) -> int {
    choose|i: int| 0 <= i < levels.len() && (#[trigger] levels[i]).price == price
}

/// The depth that a list of levels stands for: the size at each price that
/// has a level.
pub open spec fn depth_of(levels: Seq<Level>) -> Map<u64, u64> {
    Map::new(|p: u64| has_price(levels, p), |p: u64| levels[index_of(levels, p)].size)
}

/// The depth after one update: size zero removes the level at that price, any
/// other size becomes the size at that price.
pub open spec fn apply_level(depth: Map<u64, u64>, level: Level) -> Map<u64, u64> {
    if level.size == 0 {
        depth.remove(level.price)
    } else {
        depth.insert(level.price, level.size)
    }
}

/// The depth after a list of updates, taken first to last.
pub open spec fn apply_levels(depth: Map<u64, u64>, levels: Seq<Level>) -> Map<u64, u64>
    decreases levels.len(),
{
    if levels.len() == 0 {
        depth
    } else {
        apply_level(apply_levels(depth, levels.drop_last()), levels.last())
    }
}

/// Whether `price` is the best of a depth on `side`: it has a level, and no
/// level comes before it.
pub open spec fn is_best(side: Side, depth: Map<u64, u64>, price: u64) -> bool {
    &&& depth.dom().contains(price)
    &&& forall|p: u64| depth.dom().contains(p) ==> !before(side, p, price)
}

proof fn lemma_lookup(side: Side, levels: Seq<Level>, i: int)
    requires
        ordered(side, levels),
        0 <= i < levels.len(),
    ensures
        has_price(levels, levels[i].price),
        index_of(levels, levels[i].price) == i,
        depth_of(levels).dom().contains(levels[i].price),
        depth_of(levels)[levels[i].price] == levels[i].size,
{
    let j = index_of(levels, levels[i].price);
    assert(0 <= j < levels.len() && levels[j].price == levels[i].price);
    if i < j {
        assert(before(side, levels[i].price, levels[j].price));
    }
    if j < i {
        assert(before(side, levels[j].price, levels[i].price));
    }
}

proof fn lemma_replaced(side: Side, levels: Seq<Level>, i: int, level: Level)
    requires
        ordered(side, levels),
        0 <= i < levels.len(),
        levels[i].price == level.price,
        level.size != 0,
    ensures
        ordered(side, levels.update(i, level)),
        depth_of(levels.update(i, level)) == apply_level(depth_of(levels), level),
{
    let now = levels.update(i, level);
    assert forall|a: int, b: int| 0 <= a < b < now.len() implies before(
        side,
        #[trigger] now[a].price,
        #[trigger] now[b].price,
    ) by {
        assert(now[a].price == levels[a].price);
        assert(now[b].price == levels[b].price);
    }
    assert(ordered(side, now));
    let want = apply_level(depth_of(levels), level);
    assert forall|p: u64| depth_of(now).dom().contains(p) implies want.dom().contains(p)
        && want[p] == depth_of(now)[p] by {
        let j = index_of(now, p);
        lemma_lookup(side, now, j);
        lemma_lookup(side, levels, j);
    }
    assert forall|p: u64| want.dom().contains(p) implies depth_of(now).dom().contains(p) by {
        if p == level.price {
            lemma_lookup(side, now, i);
        } else {
            let j = index_of(levels, p);
            lemma_lookup(side, now, j);
        }
    }
    assert(depth_of(now) =~= want);
}

proof fn lemma_removed(side: Side, levels: Seq<Level>, i: int, level: Level)
    requires
        ordered(side, levels),
        0 <= i < levels.len(),
        levels[i].price == level.price,
        level.size == 0,
    ensures
        ordered(side, levels.remove(i)),
        depth_of(levels.remove(i)) == apply_level(depth_of(levels), level),
{
    let now = levels.remove(i);
    assert forall|a: int, b: int| 0 <= a < b < now.len() implies before(
        side,
        #[trigger] now[a].price,
        #[trigger] now[b].price,
    ) by {
        let a0 = if a < i { a } else { a + 1 };
        let b0 = if b < i { b } else { b + 1 };
        assert(now[a] == levels[a0]);
        assert(now[b] == levels[b0]);
        assert(before(side, levels[a0].price, levels[b0].price));
    }
    assert forall|a: int| 0 <= a < now.len() implies (#[trigger] now[a]).size != 0 by {
        let a0 = if a < i { a } else { a + 1 };
        assert(now[a] == levels[a0]);
    }
    assert(ordered(side, now));
    let want = apply_level(depth_of(levels), level);
    assert forall|p: u64| depth_of(now).dom().contains(p) implies want.dom().contains(p)
        && want[p] == depth_of(now)[p] by {
        let j = index_of(now, p);
        let j0 = if j < i { j } else { j + 1 };
        assert(now[j] == levels[j0]);
        lemma_lookup(side, now, j);
        lemma_lookup(side, levels, j0);
        lemma_lookup(side, levels, i);
    }
    assert forall|p: u64| want.dom().contains(p) implies depth_of(now).dom().contains(p) by {
        let j0 = index_of(levels, p);
        lemma_lookup(side, levels, j0);
        lemma_lookup(side, levels, i);
        let j = if j0 < i { j0 } else { j0 - 1 };
        assert(now[j] == levels[j0]);
        lemma_lookup(side, now, j);
    }
    assert(depth_of(now) =~= want);
}

proof fn lemma_absent(side: Side, levels: Seq<Level>, i: int, price: u64)
    requires
        ordered(side, levels),
        0 <= i <= levels.len(),
        forall|j: int| 0 <= j < i ==> before(side, (#[trigger] levels[j]).price, price),
        i < levels.len() ==> before(side, price, levels[i].price),
    ensures
        !has_price(levels, price),
        forall|j: int| i <= j < levels.len() ==> before(side, price, (#[trigger] levels[j]).price),
{
    assert forall|j: int| i <= j < levels.len() implies before(
        side,
        price,
        (#[trigger] levels[j]).price,
    ) by {
        if i < j {
            assert(before(side, levels[i].price, levels[j].price));
        }
    }
    if has_price(levels, price) {
        let j = index_of(levels, price);
        if j < i {
            assert(before(side, levels[j].price, price));
        } else {
            assert(before(side, price, levels[j].price));
        }
    }
}

proof fn lemma_inserted(side: Side, levels: Seq<Level>, i: int, level: Level)
    requires
        ordered(side, levels),
        0 <= i <= levels.len(),
        forall|j: int| 0 <= j < i ==> before(side, (#[trigger] levels[j]).price, level.price),
        i < levels.len() ==> before(side, level.price, levels[i].price),
        level.size != 0,
    ensures
        ordered(side, levels.insert(i, level)),
        depth_of(levels.insert(i, level)) == apply_level(depth_of(levels), level),
{
    lemma_absent(side, levels, i, level.price);
    let now = levels.insert(i, level);
    assert forall|a: int, b: int| 0 <= a < b < now.len() implies before(
        side,
        #[trigger] now[a].price,
        #[trigger] now[b].price,
    ) by {
        let a0 = if a < i { a } else { a - 1 };
        let b0 = if b < i { b } else { b - 1 };
        if a != i {
            assert(now[a] == levels[a0]);
        }
        if b != i {
            assert(now[b] == levels[b0]);
        }
        if a != i && b != i {
            assert(before(side, levels[a0].price, levels[b0].price));
        }
    }
    assert forall|a: int| 0 <= a < now.len() implies (#[trigger] now[a]).size != 0 by {
        let a0 = if a < i { a } else { a - 1 };
        if a != i {
            assert(now[a] == levels[a0]);
        }
    }
    assert(ordered(side, now));
    let want = apply_level(depth_of(levels), level);
    assert forall|p: u64| depth_of(now).dom().contains(p) implies want.dom().contains(p)
        && want[p] == depth_of(now)[p] by {
        let j = index_of(now, p);
        lemma_lookup(side, now, j);
        if j != i {
            let j0 = if j < i { j } else { j - 1 };
            assert(now[j] == levels[j0]);
            lemma_lookup(side, levels, j0);
        }
    }
    assert forall|p: u64| want.dom().contains(p) implies depth_of(now).dom().contains(p) by {
        if p == level.price {
            assert(now[i] == level);
            lemma_lookup(side, now, i);
        } else {
            let j0 = index_of(levels, p);
            let j = if j0 < i { j0 } else { j0 + 1 };
            assert(now[j] == levels[j0]);
            lemma_lookup(side, now, j);
        }
    }
    assert(depth_of(now) =~= want);
}

proof fn lemma_untouched(side: Side, levels: Seq<Level>, i: int, level: Level)
    requires
        ordered(side, levels),
        0 <= i <= levels.len(),
        forall|j: int| 0 <= j < i ==> before(side, (#[trigger] levels[j]).price, level.price),
        i < levels.len() ==> before(side, level.price, levels[i].price),
        level.size == 0,
    ensures
        depth_of(levels) == apply_level(depth_of(levels), level),
{
    lemma_absent(side, levels, i, level.price);
    assert(depth_of(levels) =~= apply_level(depth_of(levels), level));
}

/// Whether a level priced `a` comes before one priced `b` on `side`.
pub fn precedes(side: Side, a: u64, b: u64) -> (r: bool)
    ensures
        r == before(side, a, b),
{
    match side {
        Side::Bid => a > b,
        Side::Ask => a < b,
    }
}

/// One side of an order book: its levels best first, one per price, none of
/// them empty.
#[derive(Debug)]
pub struct BookSide {
    side: Side,
    levels: Vec<Level>,
}

impl BookSide {
    /// The levels are in the order of the side, one per price, none empty.
    pub closed spec fn wf(&self) -> bool {
        ordered(self.side, self.levels@)
    }

    pub closed spec fn side_of(&self) -> Side {
        self.side
    }

    /// The levels, best first.
    pub closed spec fn levels_of(&self) -> Seq<Level> {
        self.levels@
    }

    /// The size at each price that has a level.
    pub closed spec fn view(&self) -> Map<u64, u64> {
        depth_of(self.levels@)
    }

    /// A side without levels.
    pub fn new(side: Side) -> (book: BookSide)
        ensures
            book.wf(),
            book.side_of() == side,
            book@ == Map::<u64, u64>::empty(),
            book.levels_of() == Seq::<Level>::empty(),
    {
        let book = BookSide { side, levels: Vec::new() };
        assert(book@ =~= Map::<u64, u64>::empty());
        book
    }

    pub fn side(&self) -> (side: Side)
        ensures
            side == self.side_of(),
    {
        self.side
    }

    /// The levels, best first.
    pub fn levels(&self) -> (levels: &Vec<Level>)
        requires
            self.wf(),
        ensures
            levels@ == self.levels_of(),
            ordered(self.side_of(), levels@),
            depth_of(levels@) == self@,
    {
        &self.levels
    }

    /// The number of levels.
    pub fn len(&self) -> (n: usize)
        ensures
            n == self.levels_of().len(),
    {
        self.levels.len()
    }

    /// The size resting at `price`, zero where the side has no level there.
    pub fn size_at(&self, price: u64) -> (size: u64)
        requires
            self.wf(),
        ensures
            self@.dom().contains(price) ==> size == self@[price] && size != 0,
            !self@.dom().contains(price) ==> size == 0,
    {
        let n = self.levels.len();
        let mut i: usize = 0;
        while i < n && precedes(self.side, self.levels[i].price, price)
            invariant
                n == self.levels.len(),
                i <= n,
                forall|j: int| 0 <= j < i ==> before(self.side, (#[trigger] self.levels@[j]).price, price),
            decreases n - i,
        {
            i = i + 1;
        }
        if i < n && self.levels[i].price == price {
            proof {
                lemma_lookup(self.side, self.levels@, i as int);
            }
            self.levels[i].size
        } else {
            proof {
                lemma_absent(self.side, self.levels@, i as int, price);
            }
            0
        }
    }

    /// The best level: the highest bid or the lowest ask.
    pub fn best(&self) -> (best: Option<Level>)
        requires
            self.wf(),
        ensures
            best is None <==> self@ == Map::<u64, u64>::empty(),
            best is Some ==> is_best(self.side_of(), self@, best->0.price) && self@[best->0.price]
                == best->0.size,
    {
        if self.levels.len() == 0 {
            assert(self@ =~= Map::<u64, u64>::empty());
            None
        } else {
            let level = self.levels[0];
            proof {
                lemma_lookup(self.side, self.levels@, 0);
                assert forall|p: u64| self@.dom().contains(p) implies !before(
                    self.side,
                    p,
                    level.price,
                ) by {
                    let j = index_of(self.levels@, p);
                    if 0 < j {
                        assert(before(self.side, self.levels@[0].price, self.levels@[j].price));
                    }
                }
            }
            Some(level)
        }
    }

    /// Applies one update: size zero removes the level at that price, any other
    /// size becomes the size at that price.
    pub fn apply(&mut self, level: Level)
        requires
            old(self).wf(),
        ensures
            final(self).wf(),
            final(self).side_of() == old(self).side_of(),
            final(self)@ == apply_level(old(self)@, level),
    {
        let n = self.levels.len();
        let mut i: usize = 0;
        while i < n && precedes(self.side, self.levels[i].price, level.price)
            invariant
                n == self.levels.len(),
                i <= n,
                *self == *old(self),
                forall|j: int|
                    0 <= j < i ==> before(self.side, (#[trigger] self.levels@[j]).price, level.price),
            decreases n - i,
        {
            i = i + 1;
        }
        if i < n && self.levels[i].price == level.price {
            if level.size == 0 {
                proof {
                    lemma_removed(self.side, self.levels@, i as int, level);
                }
                self.levels.remove(i);
            } else {
                proof {
                    lemma_replaced(self.side, self.levels@, i as int, level);
                }
                self.levels.set(i, level);
            }
        } else if level.size != 0 {
            proof {
                lemma_inserted(self.side, self.levels@, i as int, level);
            }
            self.levels.insert(i, level);
        } else {
            proof {
                lemma_untouched(self.side, self.levels@, i as int, level);
            }
        }
    }

    /// Applies a list of updates, first to last.
    pub fn apply_all(&mut self, levels: &Vec<Level>)
        requires
            old(self).wf(),
        ensures
            final(self).wf(),
            final(self).side_of() == old(self).side_of(),
            final(self)@ == apply_levels(old(self)@, levels@),
    {
        let mut k: usize = 0;
        while k < levels.len()
            invariant
                k <= levels.len(),
                self.wf(),
                self.side_of() == old(self).side_of(),
                self@ == apply_levels(old(self)@, levels@.take(k as int)),
            decreases levels.len() - k,
        {
            proof {
                assert(levels@.take(k + 1).drop_last() == levels@.take(k as int));
            }
            self.apply(levels[k]);
            k = k + 1;
        }
        proof {
            assert(levels@.take(k as int) == levels@);
        }
    }

    /// Drops every level.
    pub fn clear(&mut self)
        ensures
            final(self).wf(),
            final(self).side_of() == old(self).side_of(),
            final(self)@ == Map::<u64, u64>::empty(),
    {
        self.levels.clear();
        assert(self@ =~= Map::<u64, u64>::empty());
    }
}

/// The depth of both sides of a book.
pub struct Depth {
    pub bids: Map<u64, u64>,
    pub asks: Map<u64, u64>,
}

/// An order book: bids from the highest price down, asks from the lowest
/// price up.
#[derive(Debug)]
pub struct OrderBook {
    bids: BookSide,
    asks: BookSide,
}

impl OrderBook {
    /// Each side is well formed and holds the side it is named for.
    pub closed spec fn wf(&self) -> bool {
        &&& self.bids.wf()
        &&& self.asks.wf()
        &&& self.bids.side_of() == Side::Bid
        &&& self.asks.side_of() == Side::Ask
    }

    pub closed spec fn view(&self) -> Depth {
        Depth { bids: self.bids@, asks: self.asks@ }
    }

    /// A book without levels.
    pub fn new() -> (book: OrderBook)
        ensures
            book.wf(),
            book@.bids == Map::<u64, u64>::empty(),
            book@.asks == Map::<u64, u64>::empty(),
    {
        OrderBook { bids: BookSide::new(Side::Bid), asks: BookSide::new(Side::Ask) }
    }

    /// The bid side, highest price first.
    pub fn bids(&self) -> (side: &BookSide)
        requires
            self.wf(),
        ensures
            side.wf(),
            side.side_of() == Side::Bid,
            side@ == self@.bids,
    {
        &self.bids
    }

    /// The ask side, lowest price first.
    pub fn asks(&self) -> (side: &BookSide)
        requires
            self.wf(),
        ensures
            side.wf(),
            side.side_of() == Side::Ask,
            side@ == self@.asks,
    {
        &self.asks
    }

    /// The highest bid.
    pub fn best_bid(&self) -> (best: Option<Level>)
        requires
            self.wf(),
        ensures
            best is None <==> self@.bids == Map::<u64, u64>::empty(),
            best is Some ==> is_best(Side::Bid, self@.bids, best->0.price)
                && self@.bids[best->0.price] == best->0.size,
    {
        self.bids.best()
    }

    /// The lowest ask.
    pub fn best_ask(&self) -> (best: Option<Level>)
        requires
            self.wf(),
        ensures
            best is None <==> self@.asks == Map::<u64, u64>::empty(),
            best is Some ==> is_best(Side::Ask, self@.asks, best->0.price)
                && self@.asks[best->0.price] == best->0.size,
    {
        self.asks.best()
    }

    /// Applies the updates of each side, first to last.
    pub fn apply(&mut self, bids: &Vec<Level>, asks: &Vec<Level>)
        requires
            old(self).wf(),
        ensures
            final(self).wf(),
            final(self)@.bids == apply_levels(old(self)@.bids, bids@),
            final(self)@.asks == apply_levels(old(self)@.asks, asks@),
    {
        self.bids.apply_all(bids);
        self.asks.apply_all(asks);
    }

    /// Drops every level of both sides.
    pub fn clear(&mut self)
        requires
            old(self).wf(),
        ensures
            final(self).wf(),
            final(self)@.bids == Map::<u64, u64>::empty(),
            final(self)@.asks == Map::<u64, u64>::empty(),
    {
        self.bids.clear();
        self.asks.clear();
    }
}

/// The levels of a side are determined by its depth: two lists in the order
/// of the same side that stand for the same depth are the same list.
pub proof fn lemma_levels_determined(side: Side, a: Seq<Level>, b: Seq<Level>)
    requires
        ordered(side, a),
        ordered(side, b),
        depth_of(a) == depth_of(b),
    ensures
        a == b,
    decreases a.len(),
{
    if a.len() == 0 {
        if b.len() > 0 {
            lemma_lookup(side, b, 0);
            assert(depth_of(a).dom().contains(b[0].price));
        }
        assert(a =~= b);
    } else {
        let m = a.len() - 1;
        lemma_lookup(side, a, m);
        assert(depth_of(b).dom().contains(a[m].price));
        let j = index_of(b, a[m].price);
        lemma_lookup(side, b, j);
        let n = b.len() - 1;
        lemma_lookup(side, b, n);
        assert(depth_of(a).dom().contains(b[n].price));
        let i = index_of(a, b[n].price);
        lemma_lookup(side, a, i);
        if j < n {
            assert(before(side, b[j].price, b[n].price));
            if i < m {
                assert(before(side, a[i].price, a[m].price));
            }
        }
        assert(j == n);
        assert(a[m] == b[n]);
        let gone = Level { price: a[m].price, size: 0 };
        lemma_removed(side, a, m, gone);
        lemma_removed(side, b, n, gone);
        assert(a.remove(m) =~= a.drop_last());
        assert(b.remove(n) =~= b.drop_last());
        lemma_levels_determined(side, a.drop_last(), b.drop_last());
        assert(a =~= a.drop_last().push(a[m]));
        assert(b =~= b.drop_last().push(b[n]));
    }
}

/// Updates applied after others give the same depth as all of them applied in
/// one list.
pub proof fn lemma_apply_levels_concat(depth: Map<u64, u64>, first: Seq<Level>, then: Seq<Level>)
    ensures
        apply_levels(apply_levels(depth, first), then) == apply_levels(depth, first + then),
    decreases then.len(),
{
    if then.len() == 0 {
        assert(first + then == first);
    } else {
        lemma_apply_levels_concat(depth, first, then.drop_last());
        assert((first + then).drop_last() == first + then.drop_last());
        assert((first + then).last() == then.last());
    }
}

} // verus!
