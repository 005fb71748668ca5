use crate::book::{
    apply_levels, lemma_sum_nonneg, other_side, sum_quantity, BookError, OrderBook,
    MAX_TABLE_CAPACITY,
};
use crate::messages::{ExchangeID, MarketDataUpdate, Side};
use vstd::prelude::*;

verus! {

/// Per-venue weights of the imbalance signal, fixed point. They need not sum
/// to any particular value.
#[derive(Debug, Clone, Copy, PartialEq, Eq, Structural)]
pub struct VenueWeights {
    pub binance: u32,
    pub bybit: u32,
    pub coinbase: u32,
}

/// An imbalance as an exact fraction `net / depth`; by convention its value
/// is 0 when `depth` is 0.
#[derive(Debug, Clone, Copy, PartialEq, Eq, Structural)]
pub struct Imbalance {
    pub net: i128,
    pub depth: u128,
}

/// The books of all venues, one per venue.
#[derive(Debug)]
pub struct GlobalOrderBook {
    pub binance: OrderBook,
    pub bybit: OrderBook,
    pub coinbase: OrderBook,
}

pub open spec fn weight_of(w: VenueWeights, e: ExchangeID) -> int {
    match e {
        ExchangeID::Binance => w.binance as int,
        ExchangeID::Bybit => w.bybit as int,
        ExchangeID::Coinbase => w.coinbase as int,
    }
}

impl GlobalOrderBook {
    pub open spec fn venue(&self, e: ExchangeID) -> OrderBook {
        match e {
            ExchangeID::Binance => self.binance,
            ExchangeID::Bybit => self.bybit,
            ExchangeID::Coinbase => self.coinbase,
        }
    }

    pub open spec fn wf(&self) -> bool {
        &&& self.binance.wf()
        &&& self.bybit.wf()
        &&& self.coinbase.wf()
    }

    /// Total resting quantity on one side of one venue.
    pub open spec fn volume(&self, e: ExchangeID, side: Side) -> int {
        sum_quantity(self.venue(e).side_levels(side))
    }

    /// `weight * (bid volume - ask volume)` of one venue.
    pub open spec fn venue_net(&self, w: VenueWeights, e: ExchangeID) -> int {
        weight_of(w, e) * (self.volume(e, Side::Buy) - self.volume(e, Side::Sell))
    }

    /// `weight * (bid volume + ask volume)` of one venue.
    pub open spec fn venue_depth(&self, w: VenueWeights, e: ExchangeID) -> int {
        weight_of(w, e) * (self.volume(e, Side::Buy) + self.volume(e, Side::Sell))
    }

    /// The venue-weighted imbalance: net flow over total depth, both summed
    /// over the venues.
    pub open spec fn spec_nobi(&self, w: VenueWeights) -> (int, int) {
        (
            self.venue_net(w, ExchangeID::Binance) + self.venue_net(w, ExchangeID::Bybit)
                + self.venue_net(w, ExchangeID::Coinbase),
            self.venue_depth(w, ExchangeID::Binance) + self.venue_depth(w, ExchangeID::Bybit)
                + self.venue_depth(w, ExchangeID::Coinbase),
        )
    }

    /// Empty books for all venues, each with the default capacity.
    pub fn new() -> (r: GlobalOrderBook)
        ensures
            r.wf(),
            forall|e: ExchangeID, s: Side| #[trigger] r.venue(e).side_levels(s).len() == 0,
    {
        GlobalOrderBook { binance: OrderBook::new(), bybit: OrderBook::new(), coinbase: OrderBook::new() }
    }

    /// Applies an update to the book of the venue it names; the other
    /// venues' books are untouched.
    pub fn on_update(&mut self, update: &MarketDataUpdate) -> (r: Result<(), BookError>)
        requires
            old(self).wf(),
        ensures
            final(self).wf(),
            forall|e: ExchangeID| e != update.exchange_id ==> #[trigger] final(self).venue(e) == old(self).venue(e),
            ({
                let before = old(self).venue(update.exchange_id);
                let after = final(self).venue(update.exchange_id);
                &&& after.spec_capacity() == before.spec_capacity()
                &&& after.side_levels(other_side(update.side)) == before.side_levels(
                    other_side(update.side),
                )
                &&& match apply_levels(
                    before.side_levels(update.side),
                    before.spec_capacity(),
                    update.price,
                    update.quantity,
                ) {
                    Some(s) => r == Ok::<(), BookError>(()) && after.side_levels(update.side) == s,
                    None => r == Err::<(), BookError>(BookError::CapacityExceeded)
                        && after.side_levels(update.side) == before.side_levels(update.side),
                }
            }),
    {
        match update.exchange_id {
            ExchangeID::Binance => self.binance.apply_update(update),
            ExchangeID::Bybit => self.bybit.apply_update(update),
            ExchangeID::Coinbase => self.coinbase.apply_update(update),
        }
    }

    /// The venue-weighted normalized order-book imbalance, as the exact
    /// fraction `sum_v w_v * (bid_v - ask_v)` over `sum_v w_v * (bid_v + ask_v)`.
    pub fn calculate_nobi(&self, weights: &VenueWeights) -> (r: Imbalance)
        requires
            self.wf(),
        ensures
            r.net == self.spec_nobi(*weights).0,
            r.depth == self.spec_nobi(*weights).1,
    {
        let (n1, d1) = weighted_terms(&self.binance, weights.binance);
        let (n2, d2) = weighted_terms(&self.bybit, weights.bybit);
        let (n3, d3) = weighted_terms(&self.coinbase, weights.coinbase);
        Imbalance { net: n1 + n2 + n3, depth: d1 + d2 + d3 }
    }
}

/// `w * (bid - ask)` and `w * (bid + ask)` of one book; each below 2^121 in
/// absolute value.
fn weighted_terms(book: &OrderBook, w: u32) -> (r: (i128, u128))
    requires
        book.wf(),
    ensures
        r.0 == w * (sum_quantity(book.side_levels(Side::Buy)) - sum_quantity(
            book.side_levels(Side::Sell),
        )),
        r.1 == w * (sum_quantity(book.side_levels(Side::Buy)) + sum_quantity(
            book.side_levels(Side::Sell),
        )),
        -0x100_0000_0000_0000_0000_0000_0000_0000 < r.0 < 0x100_0000_0000_0000_0000_0000_0000_0000,
        r.1 < 0x200_0000_0000_0000_0000_0000_0000_0000,
{
    let bid = book.total_volume(Side::Buy);
    let ask = book.total_volume(Side::Sell);
    let ghost m: int = MAX_TABLE_CAPACITY * 0xffff_ffff_ffff_ffffu64;
    assert(m < 0x100_0000_0000_0000_0000_0000);
    let b = bid as i128;
    let a = ask as i128;
    let wi = w as i128;
    proof {
        let wv = w as int;
        let bv = bid as int;
        let av = ask as int;
        assert(wv * bv < 0x1_0000_0000 * 0x100_0000_0000_0000_0000_0000) by (nonlinear_arith)
            requires
                0 <= wv < 0x1_0000_0000,
                0 <= bv < 0x100_0000_0000_0000_0000_0000,
        ;
        assert(wv * av < 0x1_0000_0000 * 0x100_0000_0000_0000_0000_0000) by (nonlinear_arith)
            requires
                0 <= wv < 0x1_0000_0000,
                0 <= av < 0x100_0000_0000_0000_0000_0000,
        ;
        assert(wv * bv >= 0 && wv * av >= 0) by (nonlinear_arith)
            requires
                0 <= wv,
                0 <= bv,
                0 <= av,
        ;
        assert(wv * (bv - av) == wv * bv - wv * av) by (nonlinear_arith);
        assert(wv * (bv + av) == wv * bv + wv * av) by (nonlinear_arith);
    }
    let wb = wi * b;
    let wa = wi * a;
    ((wb - wa), (wb + wa) as u128)
}

/// With no volume on any venue the imbalance is exactly zero, whatever the
/// weights.
pub proof fn lemma_nobi_zero_without_volume(book: &GlobalOrderBook, w: VenueWeights)
    requires
        forall|e: ExchangeID, s: Side| #[trigger] book.volume(e, s) == 0,
    ensures
        book.spec_nobi(w).0 == 0,
        book.spec_nobi(w).1 == 0,
{
    assert(book.volume(ExchangeID::Binance, Side::Buy) == 0);
    assert(book.volume(ExchangeID::Binance, Side::Sell) == 0);
    assert(book.volume(ExchangeID::Bybit, Side::Buy) == 0);
    assert(book.volume(ExchangeID::Bybit, Side::Sell) == 0);
    assert(book.volume(ExchangeID::Coinbase, Side::Buy) == 0);
    assert(book.volume(ExchangeID::Coinbase, Side::Sell) == 0);
}

/// The weighted imbalance lies in [-1, 1]: its net flow never exceeds its
/// depth in absolute value, since weights and volumes are non-negative.
pub proof fn lemma_nobi_bounded(book: &GlobalOrderBook, w: VenueWeights)
    ensures
        -book.spec_nobi(w).1 <= book.spec_nobi(w).0 <= book.spec_nobi(w).1,
{
    assert forall|e: ExchangeID|
        -book.venue_depth(w, e) <= #[trigger] book.venue_net(w, e) <= book.venue_depth(w, e) by {
        let b = book.volume(e, Side::Buy);
        let a = book.volume(e, Side::Sell);
        let wv = weight_of(w, e);
        lemma_sum_nonneg(book.venue(e).side_levels(Side::Buy));
        lemma_sum_nonneg(book.venue(e).side_levels(Side::Sell));
        assert(-(wv * (b + a)) <= wv * (b - a) <= wv * (b + a)) by (nonlinear_arith)
            requires
                wv >= 0,
                b >= 0,
                a >= 0,
        ;
    }
    assert(book.venue_net(w, ExchangeID::Binance) <= book.venue_depth(w, ExchangeID::Binance));
    assert(book.venue_net(w, ExchangeID::Bybit) <= book.venue_depth(w, ExchangeID::Bybit));
    assert(book.venue_net(w, ExchangeID::Coinbase) <= book.venue_depth(w, ExchangeID::Coinbase));
}

} // verus!
