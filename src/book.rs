use crate::messages::{MarketDataUpdate, Side};
use vstd::prelude::*;

verus! {

/// Number of price levels per side of a book built with `OrderBook::new`.
pub const MAX_PRICE_LEVELS: usize = 1000;

/// Number of resting orders a book is sized for.
pub const MAX_ORDERS: usize = 10000;

/// Largest per-side capacity a book may be configured with, so that
/// venue-weighted sums of its volumes fit in 128 bits.
pub const MAX_TABLE_CAPACITY: usize = 1000000;

/// Resting quantity at one price. Both are fixed point, scaled by 10^8.
#[derive(Debug, Clone, Copy, PartialEq, Eq, Structural)]
pub struct PriceLevel {
    pub price: i64,
    pub quantity: u64,
}

/// Why an update could not be applied to a book.
#[derive(Debug, Clone, Copy, PartialEq, Eq, Structural)]
pub enum BookError {
    /// No level at the update's price and no free slot for a new one.
    CapacityExceeded,
}

/// The levels of a table are live (non-zero quantity) and at distinct prices.
pub open spec fn levels_wf(s: Seq<PriceLevel>) -> bool {
    &&& forall|i: int| 0 <= i < s.len() ==> s[i].quantity > 0
    &&& forall|i: int, j: int|
        0 <= i < s.len() && 0 <= j < s.len() && i != j ==> s[i].price != s[j].price
}

pub open spec fn has_price(s: Seq<PriceLevel>, p: i64) -> bool {
    exists|i: int| 0 <= i < s.len() && s[i].price == p
}

/// The levels after setting quantity `q` at price `p` in a table of capacity
/// `cap`: an existing level is overwritten, or removed when `q` is 0. A new
/// price needs a free slot: `None` when there is none, whatever `q` is;
/// otherwise a live level is appended, and `q` 0 changes nothing.
pub open spec fn apply_levels(s: Seq<PriceLevel>, cap: nat, p: i64, q: u64) -> Option<
    Seq<PriceLevel>,
> {
    if has_price(s, p) {
        let i = choose|i: int| 0 <= i < s.len() && s[i].price == p;
        if q == 0 {
            Some(s.remove(i))
        } else {
            Some(s.update(i, PriceLevel { price: p, quantity: q }))
        }
    } else if s.len() >= cap {
        None
    } else if q == 0 {
        Some(s)
    } else {
        Some(s.push(PriceLevel { price: p, quantity: q }))
    }
}

/// `a` does not rank ahead of `b` on `side`: not a higher bid, not a lower ask.
pub open spec fn ranks_below_or_at(side: Side, a: PriceLevel, b: PriceLevel) -> bool {
    match side {
        Side::Buy => a.price <= b.price,
        Side::Sell => a.price >= b.price,
    }
}

/// `r` is the best level of `s` for `side`: the highest bid or lowest ask,
/// and `None` exactly when there are no levels.
pub open spec fn is_best(s: Seq<PriceLevel>, side: Side, r: Option<PriceLevel>) -> bool {
    match r {
        None => s.len() == 0,
        Some(b) => s.contains(b) && forall|i: int|
            0 <= i < s.len() ==> ranks_below_or_at(side, #[trigger] s[i], b),
    }
}

/// Sum of the quantities of `s`.
pub open spec fn sum_quantity(s: Seq<PriceLevel>) -> int
    decreases s.len(),
{
    if s.len() == 0 {
        0
    } else {
        sum_quantity(s.drop_last()) + s.last().quantity
    }
}

proof fn lemma_sum_push(s: Seq<PriceLevel>, l: PriceLevel)
    ensures
        sum_quantity(s.push(l)) == sum_quantity(s) + l.quantity,
{
    assert(s.push(l).drop_last() =~= s);
}

/// A sum of quantities is never negative.
pub proof fn lemma_sum_nonneg(s: Seq<PriceLevel>)
    ensures
        sum_quantity(s) >= 0,
    decreases s.len(),
{
    if s.len() > 0 {
        lemma_sum_nonneg(s.drop_last());
    }
}

/// Removing one level takes its quantity out of the sum.
proof fn lemma_sum_remove(s: Seq<PriceLevel>, i: int)
    requires
        0 <= i < s.len(),
    ensures
        sum_quantity(s.remove(i)) == sum_quantity(s) - s[i].quantity,
    decreases s.len(),
{
    if i == s.len() - 1 {
        assert(s.remove(i) =~= s.drop_last());
    } else {
        lemma_sum_remove(s.drop_last(), i);
        assert(s.remove(i).drop_last() =~= s.drop_last().remove(i));
    }
}

/// One side of one venue's book: at most `capacity` live levels at distinct prices.
#[derive(Debug)]
pub struct PriceLevelTable {
    levels: Vec<PriceLevel>,
    capacity: usize,
}

impl View for PriceLevelTable {
    type V = Seq<PriceLevel>;

    /// The live levels, in the order they were first inserted.
    closed spec fn view(&self) -> Seq<PriceLevel> {
        self.levels@
    }
}

impl PriceLevelTable {
    pub closed spec fn spec_capacity(&self) -> nat {
        self.capacity as nat
    }

    /// Levels are live and at distinct prices, within the capacity.
    pub closed spec fn wf(&self) -> bool {
        &&& levels_wf(self.levels@)
        &&& self.levels@.len() <= self.capacity
        &&& self.capacity <= MAX_TABLE_CAPACITY
    }

    /// What well-formedness says of the levels.
    pub proof fn lemma_wf(&self)
        requires
            self.wf(),
        ensures
            levels_wf(self@),
            self@.len() <= self.spec_capacity(),
            self.spec_capacity() <= MAX_TABLE_CAPACITY,
    {
    }

    /// An empty table with room for `capacity` levels.
    pub fn new(capacity: usize) -> (r: PriceLevelTable)
        requires
            capacity <= MAX_TABLE_CAPACITY,
        ensures
            r.wf(),
            r@ == Seq::<PriceLevel>::empty(),
            r.spec_capacity() == capacity,
    {
        PriceLevelTable { levels: Vec::with_capacity(capacity), capacity }
    }

    pub fn capacity(&self) -> (r: usize)
        ensures
            r == self.spec_capacity(),
    {
        self.capacity
    }

    /// The live levels, in the order they were first inserted.
    pub fn levels(&self) -> (r: &Vec<PriceLevel>)
        ensures
            r@ == self@,
    {
        &self.levels
    }

    fn find(&self, price: i64) -> (r: Option<usize>)
        ensures
            match r {
                Some(i) => i < self.levels@.len() && self.levels@[i as int].price == price,
                None => !has_price(self.levels@, price),
            },
    {
        let mut i: usize = 0;
        while i < self.levels.len()
            invariant
                i <= self.levels@.len(),
                forall|k: int| 0 <= k < i ==> self.levels@[k].price != price,
            decreases self.levels@.len() - i,
        {
            if self.levels[i].price == price {
                return Some(i);
            }
            i = i + 1;
        }
        None
    }

    /// Sets the quantity at `price`; quantity 0 removes the level. Fails,
    /// leaving the table as it was, when the price has no level and the
    /// table is full, whatever the quantity.
    pub fn apply(&mut self, price: i64, quantity: u64) -> (r: Result<(), BookError>)
        requires
            old(self).wf(),
        ensures
            final(self).wf(),
            final(self).spec_capacity() == old(self).spec_capacity(),
            match apply_levels(old(self)@, old(self).spec_capacity(), price, quantity) {
                Some(s) => r == Ok::<(), BookError>(()) && final(self)@ == s,
                None => r == Err::<(), BookError>(BookError::CapacityExceeded)
                    && final(self)@ == old(self)@,
            },
    {
        let ghost s = self.levels@;
        match self.find(price) {
            Some(i) => {
                proof {
                    let j = choose|j: int| 0 <= j < s.len() && s[j].price == price;
                    assert(j == i);
                }
                if quantity == 0 {
                    self.levels.remove(i);
                    proof {
                        let t = self.levels@;
                        assert(t =~= s.remove(i as int));
                        assert forall|a: int, b: int|
                            0 <= a < t.len() && 0 <= b < t.len() && a != b implies t[a].price
                            != t[b].price by {
                            let a0 = if a < i { a } else { a + 1 };
                            let b0 = if b < i { b } else { b + 1 };
                            assert(t[a] == s[a0] && t[b] == s[b0]);
                        }
                        assert forall|a: int| 0 <= a < t.len() implies t[a].quantity > 0 by {
                            let a0 = if a < i { a } else { a + 1 };
                            assert(t[a] == s[a0]);
                        }
                    }
                } else {
                    self.levels.set(i, PriceLevel { price, quantity });
                }
                Ok(())
            },
            None => {
                if self.levels.len() >= self.capacity {
                    Err(BookError::CapacityExceeded)
                } else if quantity == 0 {
                    Ok(())
                } else {
                    self.levels.push(PriceLevel { price, quantity });
                    Ok(())
                }
            },
        }
    }

    /// The best level for `side`, by a scan of all levels.
    pub fn best(&self, side: Side) -> (r: Option<PriceLevel>)
        ensures
            is_best(self@, side, r),
    {
        let mut best: Option<PriceLevel> = None;
        let mut i: usize = 0;
        while i < self.levels.len()
            invariant
                i <= self.levels@.len(),
                is_best(self.levels@.subrange(0, i as int), side, best),
            decreases self.levels@.len() - i,
        {
            let l = self.levels[i];
            let take = match best {
                None => true,
                Some(b) => match side {
                    Side::Buy => l.price > b.price,
                    Side::Sell => l.price < b.price,
                },
            };
            let ghost pre = self.levels@.subrange(0, i as int);
            if take {
                best = Some(l);
            }
            i = i + 1;
            proof {
                let cur = self.levels@.subrange(0, i as int);
                assert(cur =~= pre.push(l));
                let b = best.unwrap();
                assert(cur[i - 1] == l);
                if take {
                    assert(cur.contains(b)) by {
                        assert(cur[i - 1] == b);
                    }
                } else {
                    let j = choose|j: int| 0 <= j < pre.len() && pre[j] == b;
                    assert(cur[j] == b);
                }
                assert forall|k: int| 0 <= k < cur.len() implies ranks_below_or_at(
                    side,
                    #[trigger] cur[k],
                    b,
                ) by {
                    if k < i - 1 {
                        assert(cur[k] == pre[k]);
                    }
                }
            }
        }
        assert(self.levels@.subrange(0, i as int) =~= self.levels@);
        best
    }

    /// Sum of the quantities of all levels.
    pub fn total_volume(&self) -> (r: u128)
        ensures
            r == sum_quantity(self@),
            r <= self@.len() * 0xffff_ffff_ffff_ffffu64,
    {
        let mut total: u128 = 0;
        let mut i: usize = 0;
        while i < self.levels.len()
            invariant
                i <= self.levels@.len(),
                total == sum_quantity(self.levels@.subrange(0, i as int)),
                total <= i * 0xffff_ffff_ffff_ffffu64,
            decreases self.levels@.len() - i,
        {
            let q = self.levels[i].quantity;
            proof {
                assert(self.levels@.subrange(0, i + 1) =~= self.levels@.subrange(
                    0,
                    i as int,
                ).push(self.levels@[i as int]));
                lemma_sum_push(self.levels@.subrange(0, i as int), self.levels@[i as int]);
                let ii = i as int;
                assert((ii + 1) * 0xffff_ffff_ffff_ffffu64 <= 0xffff_ffff_ffff_ffff_ffff_ffff_ffff_ffffu128)
                    by (nonlinear_arith)
                    requires
                        ii < 0x1_0000_0000_0000_0000int,
                ;
                assert((ii + 1) * 0xffff_ffff_ffff_ffffu64 == ii * 0xffff_ffff_ffff_ffffu64
                    + 0xffff_ffff_ffff_ffffu64) by (nonlinear_arith);
            }
            total = total + q as u128;
            i = i + 1;
        }
        assert(self.levels@.subrange(0, i as int) =~= self.levels@);
        total
    }
}

/// Setting quantity 0 at a price that has a level removes that level: the
/// price is gone from the table and its quantity from the total volume.
pub proof fn lemma_zero_quantity_removes(s: Seq<PriceLevel>, cap: nat, i: int)
    requires
        levels_wf(s),
        0 <= i < s.len(),
    ensures
        apply_levels(s, cap, s[i].price, 0) is Some,
        !has_price(apply_levels(s, cap, s[i].price, 0).unwrap(), s[i].price),
        sum_quantity(apply_levels(s, cap, s[i].price, 0).unwrap()) == sum_quantity(s)
            - s[i].quantity,
{
    let p = s[i].price;
    let j = choose|j: int| 0 <= j < s.len() && s[j].price == p;
    assert(j == i);
    let t = s.remove(i);
    lemma_sum_remove(s, i);
    assert forall|k: int| 0 <= k < t.len() implies t[k].price != p by {
        let k0 = if k < i { k } else { k + 1 };
        assert(t[k] == s[k0]);
    }
}

/// One venue's book: a table per side, with the best level of each side
/// cached until that side next changes.
#[derive(Debug)]
pub struct OrderBook {
    bids: PriceLevelTable,
    asks: PriceLevelTable,
    cached_best_bid: Option<PriceLevel>,
    cached_best_ask: Option<PriceLevel>,
}

impl OrderBook {
    /// The levels of one side.
    pub closed spec fn side_levels(&self, side: Side) -> Seq<PriceLevel> {
        match side {
            Side::Buy => self.bids@,
            Side::Sell => self.asks@,
        }
    }

    pub closed spec fn spec_capacity(&self) -> nat {
        self.bids.spec_capacity()
    }

    /// The cached best level of one side, if any.
    pub closed spec fn cached_best(&self, side: Side) -> Option<PriceLevel> {
        match side {
            Side::Buy => self.cached_best_bid,
            Side::Sell => self.cached_best_ask,
        }
    }

    /// Both tables are well formed with one capacity, and a cached best
    /// level, where there is one, is the true best level of its side.
    pub closed spec fn wf(&self) -> bool {
        &&& self.bids.wf()
        &&& self.asks.wf()
        &&& self.asks.spec_capacity() == self.bids.spec_capacity()
        &&& (self.cached_best_bid is Some ==> is_best(self.bids@, Side::Buy, self.cached_best_bid))
        &&& (self.cached_best_ask is Some ==> is_best(self.asks@, Side::Sell, self.cached_best_ask))
    }

    /// What well-formedness says of each side.
    pub proof fn lemma_wf(&self)
        requires
            self.wf(),
        ensures
            forall|side: Side|
                levels_wf(#[trigger] self.side_levels(side)) && self.side_levels(side).len()
                    <= self.spec_capacity(),
            self.spec_capacity() <= MAX_TABLE_CAPACITY,
    {
        self.bids.lemma_wf();
        self.asks.lemma_wf();
    }

    /// An empty book with `MAX_PRICE_LEVELS` levels per side.
    pub fn new() -> (r: OrderBook)
        ensures
            r.wf(),
            r.side_levels(Side::Buy) == Seq::<PriceLevel>::empty(),
            r.side_levels(Side::Sell) == Seq::<PriceLevel>::empty(),
            r.spec_capacity() == MAX_PRICE_LEVELS,
    {
        OrderBook::with_capacity(MAX_PRICE_LEVELS)
    }

    /// An empty book with `capacity` levels per side.
    pub fn with_capacity(capacity: usize) -> (r: OrderBook)
        requires
            capacity <= MAX_TABLE_CAPACITY,
        ensures
            r.wf(),
            r.side_levels(Side::Buy) == Seq::<PriceLevel>::empty(),
            r.side_levels(Side::Sell) == Seq::<PriceLevel>::empty(),
            r.spec_capacity() == capacity,
    {
        OrderBook {
            bids: PriceLevelTable::new(capacity),
            asks: PriceLevelTable::new(capacity),
            cached_best_bid: None,
            cached_best_ask: None,
        }
    }

    /// The live levels of one side, in the order they were first inserted.
    pub fn levels(&self, side: Side) -> (r: &Vec<PriceLevel>)
        ensures
            r@ == self.side_levels(side),
    {
        match side {
            Side::Buy => self.bids.levels(),
            Side::Sell => self.asks.levels(),
        }
    }

    fn invalidate_cache(&mut self, side: Side)
        ensures
            final(self).bids == old(self).bids,
            final(self).asks == old(self).asks,
            final(self).cached_best(side) is None,
            final(self).cached_best(other_side(side)) == old(self).cached_best(other_side(side)),
    {
        match side {
            Side::Buy => self.cached_best_bid = None,
            Side::Sell => self.cached_best_ask = None,
        }
    }

    /// Applies one update to the side it names: see `apply_levels`. It fails
    /// with `CapacityExceeded` exactly when the price has no level and that
    /// side is full, whatever the quantity; the book is then unchanged. On
    /// success that side's cached best level is cleared. The other side is
    /// never touched.
    pub fn apply_update(&mut self, update: &MarketDataUpdate) -> (r: Result<(), BookError>)
        requires
            old(self).wf(),
        ensures
            final(self).wf(),
            final(self).spec_capacity() == old(self).spec_capacity(),
            final(self).side_levels(other_side(update.side)) == old(self).side_levels(
                other_side(update.side),
            ),
            final(self).cached_best(other_side(update.side)) == old(self).cached_best(
                other_side(update.side),
            ),
            match apply_levels(
                old(self).side_levels(update.side),
                old(self).spec_capacity(),
                update.price,
                update.quantity,
            ) {
                Some(s) => r == Ok::<(), BookError>(()) && final(self).side_levels(update.side)
                    == s && final(self).cached_best(update.side) is None,
                None => r == Err::<(), BookError>(BookError::CapacityExceeded) && (forall|s: Side|
                    #[trigger] final(self).side_levels(s) == old(self).side_levels(s)
                        && final(self).cached_best(s) == old(self).cached_best(s)),
            },
    {
        let r = match update.side {
            Side::Buy => self.bids.apply(update.price, update.quantity),
            Side::Sell => self.asks.apply(update.price, update.quantity),
        };
        if r.is_ok() {
            self.invalidate_cache(update.side);
        }
        r
    }

    /// The best level of one side: the highest bid or the lowest ask, or
    /// `None` when the side is empty. Served from the cache when it holds a
    /// value, else found by a scan that refills the cache.
    pub fn best(&mut self, side: Side) -> (r: Option<PriceLevel>)
        requires
            old(self).wf(),
        ensures
            final(self).wf(),
            is_best(old(self).side_levels(side), side, r),
            final(self).spec_capacity() == old(self).spec_capacity(),
            forall|s: Side| #[trigger] final(self).side_levels(s) == old(self).side_levels(s),
            final(self).cached_best(other_side(side)) == old(self).cached_best(other_side(side)),
    {
        match side {
            Side::Buy => {
                if let Some(cached) = self.cached_best_bid {
                    return Some(cached);
                }
                let b = self.bids.best(Side::Buy);
                self.cached_best_bid = b;
                b
            },
            Side::Sell => {
                if let Some(cached) = self.cached_best_ask {
                    return Some(cached);
                }
                let b = self.asks.best(Side::Sell);
                self.cached_best_ask = b;
                b
            },
        }
    }

    /// The highest bid, or `None` when there are no bids.
    pub fn best_bid(&mut self) -> (r: Option<PriceLevel>)
        requires
            old(self).wf(),
        ensures
            final(self).wf(),
            is_best(old(self).side_levels(Side::Buy), Side::Buy, r),
            final(self).spec_capacity() == old(self).spec_capacity(),
            forall|s: Side| #[trigger] final(self).side_levels(s) == old(self).side_levels(s),
            final(self).cached_best(Side::Sell) == old(self).cached_best(Side::Sell),
    {
        self.best(Side::Buy)
    }

    /// The lowest ask, or `None` when there are no asks.
    pub fn best_ask(&mut self) -> (r: Option<PriceLevel>)
        requires
            old(self).wf(),
        ensures
            final(self).wf(),
            is_best(old(self).side_levels(Side::Sell), Side::Sell, r),
            final(self).spec_capacity() == old(self).spec_capacity(),
            forall|s: Side| #[trigger] final(self).side_levels(s) == old(self).side_levels(s),
            final(self).cached_best(Side::Buy) == old(self).cached_best(Side::Buy),
    {
        self.best(Side::Sell)
    }

    /// Sum of the quantities of all levels of one side.
    pub fn total_volume(&self, side: Side) -> (r: u128)
        requires
            self.wf(),
        ensures
            r == sum_quantity(self.side_levels(side)),
            r <= MAX_TABLE_CAPACITY * 0xffff_ffff_ffff_ffffu64,
    {
        proof {
            self.lemma_wf();
            let n = self.side_levels(side).len();
            assert(n * 0xffff_ffff_ffff_ffffu64 <= MAX_TABLE_CAPACITY * 0xffff_ffff_ffff_ffffu64)
                by (nonlinear_arith)
                requires
                    n <= MAX_TABLE_CAPACITY,
            ;
        }
        match side {
            Side::Buy => self.bids.total_volume(),
            Side::Sell => self.asks.total_volume(),
        }
    }
}

pub open spec fn other_side(side: Side) -> Side {
    match side {
        Side::Buy => Side::Sell,
        Side::Sell => Side::Buy,
    }
}

/// A cached best level is never stale: in a well-formed book, whatever the
/// cache holds for a side is the true best level of that side's levels.
pub proof fn lemma_cache_coherent(book: &OrderBook, side: Side)
    requires
        book.wf(),
    ensures
        book.cached_best(side) is Some ==> is_best(book.side_levels(side), side, book.cached_best(side)),
{
}

/// Applying `(p, q)` leaves well-formed levels in which `p` holds exactly
/// `q` (no level when `q` is 0) and every other price keeps its level.
pub proof fn lemma_apply_sets_level(s: Seq<PriceLevel>, cap: nat, p: i64, q: u64)
    requires
        levels_wf(s),
        apply_levels(s, cap, p, q) is Some,
    ensures
        ({
            let t = apply_levels(s, cap, p, q).unwrap();
            &&& levels_wf(t)
            &&& q > 0 ==> t.contains(PriceLevel { price: p, quantity: q })
            &&& q == 0 ==> !has_price(t, p)
            &&& forall|l: PriceLevel| l.price != p ==> (t.contains(l) <==> s.contains(l))
        }),
{
    let t = apply_levels(s, cap, p, q).unwrap();
    let nl = PriceLevel { price: p, quantity: q };
    if has_price(s, p) {
        let i = choose|i: int| 0 <= i < s.len() && s[i].price == p;
        if q == 0 {
            lemma_zero_quantity_removes(s, cap, i);
            assert forall|a: int, b: int|
                0 <= a < t.len() && 0 <= b < t.len() && a != b implies t[a].price != t[b].price by {
                let a0 = if a < i { a } else { a + 1 };
                let b0 = if b < i { b } else { b + 1 };
                assert(t[a] == s[a0] && t[b] == s[b0]);
            }
            assert forall|a: int| 0 <= a < t.len() implies t[a].quantity > 0 by {
                let a0 = if a < i { a } else { a + 1 };
                assert(t[a] == s[a0]);
            }
            assert forall|l: PriceLevel| l.price != p implies (t.contains(l) <==> s.contains(l)) by {
                if t.contains(l) {
                    let k = choose|k: int| 0 <= k < t.len() && t[k] == l;
                    let k0 = if k < i { k } else { k + 1 };
                    assert(s[k0] == l);
                }
                if s.contains(l) {
                    let k = choose|k: int| 0 <= k < s.len() && s[k] == l;
                    assert(k != i);
                    let k1 = if k < i { k } else { k - 1 };
                    assert(t[k1] == l);
                }
            }
        } else {
            assert(t[i] == nl);
            assert forall|l: PriceLevel| l.price != p implies (t.contains(l) <==> s.contains(l)) by {
                if t.contains(l) {
                    let k = choose|k: int| 0 <= k < t.len() && t[k] == l;
                    assert(s[k] == l);
                }
                if s.contains(l) {
                    let k = choose|k: int| 0 <= k < s.len() && s[k] == l;
                    assert(t[k] == l);
                }
            }
        }
    } else if q > 0 {
        assert(t[s.len() as int] == nl);
        assert forall|l: PriceLevel| l.price != p implies (t.contains(l) <==> s.contains(l)) by {
            if t.contains(l) {
                let k = choose|k: int| 0 <= k < t.len() && t[k] == l;
                assert(s[k] == l);
            }
            if s.contains(l) {
                let k = choose|k: int| 0 <= k < s.len() && s[k] == l;
                assert(t[k] == l);
            }
        }
    }
}

/// The levels after applying `ups` (price, quantity) in order to `s`, one
/// `apply_levels` step each as `OrderBook::apply_update` takes it; `None` once
/// a step fails.
pub open spec fn apply_all(s: Seq<PriceLevel>, cap: nat, ups: Seq<(i64, u64)>) -> Option<
    Seq<PriceLevel>,
>
    decreases ups.len(),
{
    if ups.len() == 0 {
        Some(s)
    } else {
        match apply_all(s, cap, ups.drop_last()) {
            Some(t) => apply_levels(t, cap, ups.last().0, ups.last().1),
            None => None,
        }
    }
}

/// `l` is one of `ups` with a non-zero quantity.
pub open spec fn from_updates(ups: Seq<(i64, u64)>, l: PriceLevel) -> bool {
    l.quantity > 0 && exists|i: int| 0 <= i < ups.len() && ups[i] == (l.price, l.quantity)
}

/// `r` is what a scan of `ups` finds as best for `side` among those with a
/// non-zero quantity: `None` when there are none.
pub open spec fn best_of_updates(ups: Seq<(i64, u64)>, side: Side, r: Option<PriceLevel>) -> bool {
    match r {
        None => forall|i: int| 0 <= i < ups.len() ==> (#[trigger] ups[i]).1 == 0,
        Some(b) => from_updates(ups, b) && forall|i: int|
            0 <= i < ups.len() && (#[trigger] ups[i]).1 > 0 ==> ranks_below_or_at(
                side,
                PriceLevel { price: ups[i].0, quantity: ups[i].1 },
                b,
            ),
    }
}

pub open spec fn distinct_prices(ups: Seq<(i64, u64)>) -> bool {
    forall|i: int, j: int| 0 <= i < ups.len() && 0 <= j < ups.len() && i != j ==> ups[i].0 != ups[j].0
}

proof fn lemma_apply_all_members(ups: Seq<(i64, u64)>, cap: nat)
    requires
        distinct_prices(ups),
        ups.len() <= cap,
    ensures
        apply_all(Seq::empty(), cap, ups) is Some,
        levels_wf(apply_all(Seq::empty(), cap, ups).unwrap()),
        apply_all(Seq::empty(), cap, ups).unwrap().len() <= ups.len(),
        forall|l: PriceLevel|
            #[trigger] apply_all(Seq::empty(), cap, ups).unwrap().contains(l) <==> from_updates(
                ups,
                l,
            ),
    decreases ups.len(),
{
    if ups.len() > 0 {
        let n = ups.len() - 1;
        let pre = ups.drop_last();
        assert forall|i: int, j: int|
            0 <= i < pre.len() && 0 <= j < pre.len() && i != j implies pre[i].0 != pre[j].0 by {
            assert(pre[i] == ups[i] && pre[j] == ups[j]);
        }
        lemma_apply_all_members(pre, cap);
        let tp = apply_all(Seq::empty(), cap, pre).unwrap();
        let p = ups.last().0;
        let q = ups.last().1;
        let nl = PriceLevel { price: p, quantity: q };
        assert(!has_price(tp, p)) by {
            if has_price(tp, p) {
                let k = choose|k: int| 0 <= k < tp.len() && tp[k].price == p;
                assert(tp.contains(tp[k]));
                assert(from_updates(pre, tp[k]));
                let i = choose|i: int| 0 <= i < pre.len() && pre[i] == (tp[k].price, tp[k].quantity);
                assert(ups[i] == pre[i]);
                assert(ups[n] == ups.last());
            }
        }
        lemma_apply_sets_level(tp, cap, p, q);
        let t = apply_all(Seq::empty(), cap, ups).unwrap();
        assert(apply_all(Seq::empty(), cap, ups) == apply_levels(tp, cap, p, q));
        assert forall|l: PriceLevel| #[trigger] t.contains(l) <==> from_updates(ups, l) by {
            if t.contains(l) {
                let k = choose|k: int| 0 <= k < t.len() && t[k] == l;
                if q > 0 && k == tp.len() {
                    assert(l == nl);
                    assert(ups[n] == (l.price, l.quantity));
                } else {
                    assert(tp[k] == l);
                    assert(tp.contains(l));
                    let i = choose|i: int| 0 <= i < pre.len() && pre[i] == (l.price, l.quantity);
                    assert(ups[i] == pre[i]);
                }
            }
            if from_updates(ups, l) {
                let i = choose|i: int| 0 <= i < ups.len() && ups[i] == (l.price, l.quantity);
                if i == n {
                    assert(l == nl);
                    assert(t[tp.len() as int] == nl);
                } else {
                    assert(pre[i] == ups[i]);
                    assert(from_updates(pre, l));
                    assert(tp.contains(l));
                    let k = choose|k: int| 0 <= k < tp.len() && tp[k] == l;
                    assert(t[k] == l);
                }
            }
        }
    }
}

proof fn lemma_best_of_members(t: Seq<PriceLevel>, ups: Seq<(i64, u64)>, side: Side, r: Option<PriceLevel>)
    requires
        forall|l: PriceLevel| #[trigger] t.contains(l) <==> from_updates(ups, l),
    ensures
        is_best(t, side, r) <==> best_of_updates(ups, side, r),
{
    match r {
        None => {
            if t.len() == 0 {
                assert forall|i: int| 0 <= i < ups.len() implies (#[trigger] ups[i]).1 == 0 by {
                    if ups[i].1 > 0 {
                        let l = PriceLevel { price: ups[i].0, quantity: ups[i].1 };
                        assert(from_updates(ups, l));
                        assert(t.contains(l));
                    }
                }
            }
            if best_of_updates(ups, side, r) && t.len() > 0 {
                assert(t.contains(t[0]));
                let i = choose|i: int| 0 <= i < ups.len() && ups[i] == (t[0].price, t[0].quantity);
                assert(ups[i].1 == 0);
            }
        },
        Some(b) => {
            if is_best(t, side, r) {
                assert forall|i: int| 0 <= i < ups.len() && (#[trigger] ups[i]).1 > 0 implies ranks_below_or_at(
                    side,
                    PriceLevel { price: ups[i].0, quantity: ups[i].1 },
                    b,
                ) by {
                    let l = PriceLevel { price: ups[i].0, quantity: ups[i].1 };
                    assert(from_updates(ups, l));
                    assert(t.contains(l));
                    let k = choose|k: int| 0 <= k < t.len() && t[k] == l;
                    assert(ranks_below_or_at(side, t[k], b));
                }
            }
            if best_of_updates(ups, side, r) {
                assert(t.contains(b));
                assert forall|k: int| 0 <= k < t.len() implies ranks_below_or_at(side, #[trigger] t[k], b) by {
                    assert(t.contains(t[k]));
                    let i = choose|i: int| 0 <= i < ups.len() && ups[i] == (t[k].price, t[k].quantity);
                    assert(ups[i].1 > 0);
                }
            }
        },
    }
}

/// Best level after a run of updates at distinct prices, applied in order
/// to an empty side with room for all of them: every step succeeds, and
/// the side's best level (what `OrderBook::best` returns, see `is_best`) is
/// exactly what a scan of the updates with a non-zero quantity finds: the
/// highest bid or the lowest ask, or `None` when every quantity is 0.
pub proof fn lemma_best_after_distinct_applies(
    ups: Seq<(i64, u64)>,
    cap: nat,
    side: Side,
    r: Option<PriceLevel>,
)
    requires
        distinct_prices(ups),
        ups.len() <= cap,
    ensures
        apply_all(Seq::empty(), cap, ups) is Some,
        is_best(apply_all(Seq::empty(), cap, ups).unwrap(), side, r) <==> best_of_updates(
            ups,
            side,
            r,
        ),
{
    lemma_apply_all_members(ups, cap);
    lemma_best_of_members(apply_all(Seq::empty(), cap, ups).unwrap(), ups, side, r);
}

} // verus!
