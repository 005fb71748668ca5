use vibe_hft::distribution::{DistributionPipeline, Distributor, RecvError};
use vibe_hft::messages::{decode_market_data, ExchangeID, FrameError, MarketDataUpdate, Side, FRAME_LEN};

fn sample() -> MarketDataUpdate {
    MarketDataUpdate {
        timestamp: 0x0102030405060708,
        exchange_id: ExchangeID::Bybit,
        symbol_id: 0x0a0b0c0d,
        side: Side::Sell,
        price: -2,
        quantity: 5_00000000,
        is_snapshot: 1,
    }
}

fn frame(n: u8) -> [u8; 31] {
    let mut f = [0u8; 31];
    f[0] = n;
    f
}

#[test]
fn frame_layout_is_exact() {
    let b = sample().to_bytes();
    assert_eq!(b.len(), FRAME_LEN);
    assert_eq!(&b[0..8], &[8, 7, 6, 5, 4, 3, 2, 1]);
    assert_eq!(b[8], 2);
    assert_eq!(&b[9..13], &[0x0d, 0x0c, 0x0b, 0x0a]);
    assert_eq!(b[13], 2);
    assert_eq!(&b[14..22], &[0xfe, 0xff, 0xff, 0xff, 0xff, 0xff, 0xff, 0xff]);
    assert_eq!(&b[22..30], &500000000u64.to_le_bytes());
    assert_eq!(b[30], 1);
}

#[test]
fn frame_round_trip() {
    for u in [
        sample(),
        MarketDataUpdate {
            timestamp: u64::MAX,
            exchange_id: ExchangeID::Coinbase,
            symbol_id: 0,
            side: Side::Buy,
            price: i64::MIN,
            quantity: u64::MAX,
            is_snapshot: 0,
        },
        MarketDataUpdate {
            timestamp: 123456789,
            exchange_id: ExchangeID::Binance,
            symbol_id: 1,
            side: Side::Buy,
            price: 50000_00000000,
            quantity: 1_00000000,
            is_snapshot: 0,
        },
    ] {
        assert_eq!(decode_market_data(&u.to_bytes()), Ok(u));
    }
    let mut longer = sample().to_bytes().to_vec();
    longer.push(99);
    assert_eq!(decode_market_data(&longer), Ok(sample()));
}

#[test]
fn malformed_frames_are_rejected() {
    let b = sample().to_bytes();
    assert_eq!(decode_market_data(&b[..30]), Err(FrameError::TooShort));
    assert_eq!(decode_market_data(&[]), Err(FrameError::TooShort));
    let mut bad_side = b;
    bad_side[13] = 3;
    assert_eq!(decode_market_data(&bad_side), Err(FrameError::InvalidSide));
    let mut bad_venue = b;
    bad_venue[8] = 0;
    assert_eq!(decode_market_data(&bad_venue), Err(FrameError::InvalidVenue));
}

#[test]
fn slow_subscriber_sees_lag_then_latest() {
    let mut d = Distributor::new();
    let id = d.subscribe(2).unwrap();
    for n in 1..=5u8 {
        d.publish(frame(n));
    }
    assert_eq!(d.recv(id), Err(RecvError::Lagged(3)));
    assert_eq!(d.recv(id), Ok(frame(4)));
    assert_eq!(d.recv(id), Ok(frame(5)));
    assert_eq!(d.recv(id), Err(RecvError::Empty));
}

#[test]
fn subscribers_are_isolated() {
    let mut d = Distributor::new();
    let slow = d.subscribe(1).unwrap();
    let fast = d.subscribe(8).unwrap();
    assert_ne!(slow, fast);
    d.publish(frame(1));
    d.publish(frame(2));
    assert_eq!(d.recv(fast), Ok(frame(1)));
    assert_eq!(d.recv(fast), Ok(frame(2)));
    assert_eq!(d.recv(slow), Err(RecvError::Lagged(1)));
    assert_eq!(d.recv(slow), Ok(frame(2)));
    assert!(d.unsubscribe(slow));
    assert!(!d.unsubscribe(slow));
    assert_eq!(d.recv(slow), Err(RecvError::Closed));
    assert_eq!(d.len(), 1);
    d.publish(frame(3));
    assert_eq!(d.recv(fast), Ok(frame(3)));
}

#[test]
fn pipeline_publishes_applied_updates_only() {
    let mut p = DistributionPipeline::new();
    let id = p.distributor.subscribe(4).unwrap();
    let u = sample();
    p.ingest(&u).unwrap();
    assert_eq!(p.book.bybit.total_volume(Side::Sell), 5_00000000);
    let got = p.distributor.recv(id).unwrap();
    assert_eq!(decode_market_data(&got), Ok(u));
    assert_eq!(p.distributor.recv(id), Err(RecvError::Empty));
}

#[test]
fn pipeline_rejected_update_publishes_nothing() {
    let mut p = DistributionPipeline::new();
    p.book.coinbase = vibe_hft::book::OrderBook::with_capacity(1);
    let id = p.distributor.subscribe(4).unwrap();
    let mut u = sample();
    u.exchange_id = ExchangeID::Coinbase;
    p.ingest(&u).unwrap();
    u.price = 7;
    assert_eq!(p.ingest(&u), Err(vibe_hft::book::BookError::CapacityExceeded));
    assert!(p.distributor.recv(id).is_ok());
    assert_eq!(p.distributor.recv(id), Err(RecvError::Empty));
}
