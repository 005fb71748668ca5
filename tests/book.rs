use vibe_hft::aggregate::{GlobalOrderBook, VenueWeights};
use vibe_hft::book::{BookError, OrderBook, PriceLevel, PriceLevelTable};
use vibe_hft::messages::{ExchangeID, MarketDataUpdate, Side};

fn upd(exchange_id: ExchangeID, side: Side, price: i64, quantity: u64) -> MarketDataUpdate {
    MarketDataUpdate {
        timestamp: 1,
        exchange_id,
        symbol_id: 1,
        side,
        price,
        quantity,
        is_snapshot: 0,
    }
}

fn brute_best(levels: &[PriceLevel], side: Side) -> Option<PriceLevel> {
    let mut best: Option<PriceLevel> = None;
    for l in levels {
        if l.quantity == 0 {
            continue;
        }
        best = match best {
            None => Some(*l),
            Some(b) => {
                let better = match side {
                    Side::Buy => l.price > b.price,
                    Side::Sell => l.price < b.price,
                };
                if better { Some(*l) } else { Some(b) }
            }
        };
    }
    best
}

#[test]
fn test_order_book_update_benchmark() {
    let mut book = GlobalOrderBook::new();
    let update = MarketDataUpdate {
        timestamp: 123456789,
        exchange_id: ExchangeID::Binance,
        symbol_id: 1,
        side: Side::Buy,
        price: 50000_00000000,
        quantity: 1_00000000,
        is_snapshot: 0,
    };

    let iterations = 1_000_000;
    let start = std::time::Instant::now();

    for _ in 0..iterations {
        book.on_update(&update).unwrap();
    }

    let duration = start.elapsed();
    let nanos_per_op = duration.as_nanos() as f64 / iterations as f64;
    let ops_per_sec = iterations as f64 / duration.as_secs_f64();

    println!("Benchmark Results:");
    println!("Total time for {} updates: {:?}", iterations, duration);
    println!("Time per update: {:.2} ns", nanos_per_op);
    println!("Throughput: {:.2} million updates/sec", ops_per_sec / 1_000_000.0);

    assert!(nanos_per_op < 10000.0, "Update too slow! Expected <10000ns, got {:.2}ns", nanos_per_op);
}

#[test]
fn best_matches_scan_after_each_apply() {
    let mut book = OrderBook::with_capacity(16);
    let prices = [105i64, 99, 110, -3, 101, 120, 0, 98];
    for (k, p) in prices.iter().enumerate() {
        for side in [Side::Buy, Side::Sell] {
            book.apply_update(&upd(ExchangeID::Binance, side, *p, (k as u64) + 1)).unwrap();
            let want = brute_best(book.levels(side), side);
            assert_eq!(book.best(side), want);
            // a second read is served from the cache and agrees
            assert_eq!(book.best(side), want);
        }
    }
    assert_eq!(book.best_bid(), Some(PriceLevel { price: 120, quantity: 6 }));
    assert_eq!(book.best_ask(), Some(PriceLevel { price: -3, quantity: 4 }));
}

#[test]
fn zero_quantity_removes_level() {
    let mut book = OrderBook::new();
    book.apply_update(&upd(ExchangeID::Bybit, Side::Buy, 100, 7)).unwrap();
    book.apply_update(&upd(ExchangeID::Bybit, Side::Buy, 101, 5)).unwrap();
    assert_eq!(book.total_volume(Side::Buy), 12);
    assert_eq!(book.best_bid(), Some(PriceLevel { price: 101, quantity: 5 }));
    book.apply_update(&upd(ExchangeID::Bybit, Side::Buy, 101, 0)).unwrap();
    assert_eq!(book.best_bid(), Some(PriceLevel { price: 100, quantity: 7 }));
    assert_eq!(book.total_volume(Side::Buy), 7);
    assert_eq!(book.levels(Side::Buy).len(), 1);
}

#[test]
fn cache_reflects_latest_apply() {
    let mut book = OrderBook::new();
    book.apply_update(&upd(ExchangeID::Coinbase, Side::Sell, 200, 1)).unwrap();
    assert_eq!(book.best_ask(), Some(PriceLevel { price: 200, quantity: 1 }));
    book.apply_update(&upd(ExchangeID::Coinbase, Side::Sell, 190, 2)).unwrap();
    assert_eq!(book.best_ask(), Some(PriceLevel { price: 190, quantity: 2 }));
    book.apply_update(&upd(ExchangeID::Coinbase, Side::Sell, 190, 9)).unwrap();
    assert_eq!(book.best_ask(), Some(PriceLevel { price: 190, quantity: 9 }));
    book.apply_update(&upd(ExchangeID::Coinbase, Side::Sell, 190, 0)).unwrap();
    assert_eq!(book.best_ask(), Some(PriceLevel { price: 200, quantity: 1 }));
    assert_eq!(book.best_bid(), None);
}

#[test]
fn add_then_remove_leaves_no_best_bid() {
    let mut book = OrderBook::new();
    book.apply_update(&upd(ExchangeID::Binance, Side::Buy, 5000000000000, 100000000)).unwrap();
    book.apply_update(&upd(ExchangeID::Binance, Side::Buy, 5000000000000, 0)).unwrap();
    assert_eq!(book.best_bid(), None);
    assert_eq!(book.total_volume(Side::Buy), 0);
}

#[test]
fn full_table_reports_capacity_exceeded() {
    let mut book = OrderBook::with_capacity(2);
    book.apply_update(&upd(ExchangeID::Binance, Side::Buy, 1, 1)).unwrap();
    book.apply_update(&upd(ExchangeID::Binance, Side::Buy, 2, 1)).unwrap();
    assert_eq!(
        book.apply_update(&upd(ExchangeID::Binance, Side::Buy, 3, 1)),
        Err(BookError::CapacityExceeded)
    );
    // a price with no level needs a free slot, even to remove it
    assert_eq!(
        book.apply_update(&upd(ExchangeID::Binance, Side::Buy, 3, 0)),
        Err(BookError::CapacityExceeded)
    );
    // existing prices can still change or go
    assert_eq!(book.apply_update(&upd(ExchangeID::Binance, Side::Buy, 2, 4)), Ok(()));
    assert_eq!(book.total_volume(Side::Buy), 5);
    assert_eq!(book.apply_update(&upd(ExchangeID::Binance, Side::Buy, 1, 0)), Ok(()));
    assert_eq!(book.total_volume(Side::Buy), 4);
    // with a free slot again, removing an unknown price changes nothing
    assert_eq!(book.apply_update(&upd(ExchangeID::Binance, Side::Buy, 3, 0)), Ok(()));
    assert_eq!(book.levels(Side::Buy).len(), 1);
    // the other side has its own room
    assert_eq!(book.apply_update(&upd(ExchangeID::Binance, Side::Sell, 3, 1)), Ok(()));
}

#[test]
fn table_scan_and_volume() {
    let mut t = PriceLevelTable::new(4);
    assert_eq!(t.best(Side::Buy), None);
    t.apply(10, 3).unwrap();
    t.apply(12, 4).unwrap();
    t.apply(11, 5).unwrap();
    assert_eq!(t.best(Side::Buy), Some(PriceLevel { price: 12, quantity: 4 }));
    assert_eq!(t.best(Side::Sell), Some(PriceLevel { price: 10, quantity: 3 }));
    assert_eq!(t.total_volume(), 12);
    assert_eq!(t.capacity(), 4);
}

#[test]
fn updates_route_to_their_venue() {
    let mut g = GlobalOrderBook::new();
    g.on_update(&upd(ExchangeID::Bybit, Side::Buy, 100, 3)).unwrap();
    assert_eq!(g.bybit.total_volume(Side::Buy), 3);
    assert_eq!(g.binance.total_volume(Side::Buy), 0);
    assert_eq!(g.coinbase.total_volume(Side::Buy), 0);
}

#[test]
fn weighted_nobi_zero_without_volume() {
    let g = GlobalOrderBook::new();
    for w in [
        VenueWeights { binance: 60, bybit: 30, coinbase: 10 },
        VenueWeights { binance: 0, bybit: 0, coinbase: 0 },
        VenueWeights { binance: u32::MAX, bybit: 1, coinbase: 7 },
    ] {
        let n = g.calculate_nobi(&w);
        assert_eq!(n.net, 0);
        assert_eq!(n.depth, 0);
    }
}

#[test]
fn weighted_nobi_exact_value() {
    let mut g = GlobalOrderBook::new();
    g.on_update(&upd(ExchangeID::Binance, Side::Buy, 100, 30)).unwrap();
    g.on_update(&upd(ExchangeID::Binance, Side::Sell, 101, 10)).unwrap();
    g.on_update(&upd(ExchangeID::Bybit, Side::Sell, 101, 20)).unwrap();
    g.on_update(&upd(ExchangeID::Coinbase, Side::Buy, 99, 50)).unwrap();
    let n = g.calculate_nobi(&VenueWeights { binance: 6, bybit: 3, coinbase: 1 });
    // 6*(30-10) + 3*(0-20) + 1*(50-0) = 110; 6*40 + 3*20 + 1*50 = 350
    assert_eq!(n.net, 110);
    assert_eq!(n.depth, 350);
    assert!(n.net.unsigned_abs() <= n.depth);
}

#[test]
fn removal_at_new_price_on_full_venue_side_fails() {
    let mut g = GlobalOrderBook::new();
    g.coinbase = OrderBook::with_capacity(1);
    g.on_update(&upd(ExchangeID::Coinbase, Side::Sell, 10, 2)).unwrap();
    assert_eq!(
        g.on_update(&upd(ExchangeID::Coinbase, Side::Sell, 11, 0)),
        Err(BookError::CapacityExceeded)
    );
    assert_eq!(g.coinbase.levels(Side::Sell).len(), 1);
    assert_eq!(g.coinbase.total_volume(Side::Sell), 2);
    assert_eq!(g.on_update(&upd(ExchangeID::Coinbase, Side::Sell, 10, 0)), Ok(()));
    assert_eq!(g.coinbase.best_ask(), None);
}
