use vstd::bytes::{
    lemma_auto_spec_u32_to_from_le_bytes, lemma_auto_spec_u64_to_from_le_bytes,
    spec_u32_from_le_bytes, spec_u32_to_le_bytes, spec_u64_from_le_bytes, spec_u64_to_le_bytes,
    u32_from_le_bytes, u32_to_le_bytes, u64_from_le_bytes, u64_to_le_bytes,
};
use vstd::prelude::*;
use vstd::slice::slice_subrange;

verus! {

/// Length in bytes of one encoded market-data frame.
pub const FRAME_LEN: usize = 31;

/// Side of the book an update refers to. On the wire: 1 = Buy (bid), 2 = Sell (ask).
#[derive(Debug, Clone, Copy, PartialEq, Eq, Structural)]
pub enum Side {
    Buy,
    Sell,
}

/// Venue an update comes from. On the wire: 1 = Binance, 2 = Bybit, 3 = Coinbase.
#[derive(Debug, Clone, Copy, PartialEq, Eq, Structural)]
pub enum ExchangeID {
    Binance,
    Bybit,
    Coinbase,
}

/// One normalized statement of quantity at price. Prices and quantities are
/// fixed point, scaled by 10^8; quantity 0 removes the level.
#[derive(Debug, Clone, Copy, PartialEq, Eq, Structural)]
pub struct MarketDataUpdate {
    pub timestamp: u64,
    pub exchange_id: ExchangeID,
    pub symbol_id: u32,
    pub side: Side,
    pub price: i64,
    pub quantity: u64,
    pub is_snapshot: u8,
}

/// An order sent to a venue.
#[derive(Debug, Clone, Copy)]
pub struct OrderEntry {
    pub timestamp: u64,
    pub cl_ord_id: u64,
    pub exchange_id: ExchangeID,
    pub symbol_id: u32,
    pub side: Side,
    pub price: i64,
    pub quantity: u64,
    pub order_type: u8,
}

/// A venue's report on the execution of an order.
#[derive(Debug, Clone, Copy)]
pub struct ExecutionReport {
    pub timestamp: u64,
    pub cl_ord_id: u64,
    pub exec_id: u64,
    pub filled_quantity: u64,
    pub filled_price: i64,
    pub status: u8,
}

/// Why a buffer could not be decoded as a frame.
#[derive(Debug, Clone, Copy, PartialEq, Eq, Structural)]
pub enum FrameError {
    /// Fewer than `FRAME_LEN` bytes.
    TooShort,
    /// The side byte is neither 1 nor 2.
    InvalidSide,
    /// The venue byte names no known venue.
    InvalidVenue,
}

pub open spec fn side_code(s: Side) -> u8 {
    match s {
        Side::Buy => 1,
        Side::Sell => 2,
    }
}

pub open spec fn venue_code(e: ExchangeID) -> u8 {
    match e {
        ExchangeID::Binance => 1,
        ExchangeID::Bybit => 2,
        ExchangeID::Coinbase => 3,
    }
}

pub open spec fn side_of_code(b: u8) -> Option<Side> {
    if b == 1 {
        Some(Side::Buy)
    } else if b == 2 {
        Some(Side::Sell)
    } else {
        None
    }
}

pub open spec fn venue_of_code(b: u8) -> Option<ExchangeID> {
    if b == 1 {
        Some(ExchangeID::Binance)
    } else if b == 2 {
        Some(ExchangeID::Bybit)
    } else if b == 3 {
        Some(ExchangeID::Coinbase)
    } else {
        None
    }
}

/// The 31-byte little-endian frame of an update: timestamp, venue, symbol,
/// side, price (two's complement), quantity, snapshot flag.
pub open spec fn frame_of(u: MarketDataUpdate) -> Seq<u8> {
    spec_u64_to_le_bytes(u.timestamp) + seq![venue_code(u.exchange_id)] + spec_u32_to_le_bytes(
        u.symbol_id,
    ) + seq![side_code(u.side)] + spec_u64_to_le_bytes(u.price as u64) + spec_u64_to_le_bytes(
        u.quantity,
    ) + seq![u.is_snapshot]
}

/// What decoding a buffer gives: its first 31 bytes read as a frame, or the
/// first reason it is not one.
pub open spec fn decode_frame(s: Seq<u8>) -> Result<MarketDataUpdate, FrameError> {
    if s.len() < FRAME_LEN {
        Err(FrameError::TooShort)
    } else if side_of_code(s[13]) is None {
        Err(FrameError::InvalidSide)
    } else if venue_of_code(s[8]) is None {
        Err(FrameError::InvalidVenue)
    } else {
        Ok(
            MarketDataUpdate {
                timestamp: spec_u64_from_le_bytes(s.subrange(0, 8)),
                exchange_id: venue_of_code(s[8]).unwrap(),
                symbol_id: spec_u32_from_le_bytes(s.subrange(9, 13)),
                side: side_of_code(s[13]).unwrap(),
                price: spec_u64_from_le_bytes(s.subrange(14, 22)) as i64,
                quantity: spec_u64_from_le_bytes(s.subrange(22, 30)),
                is_snapshot: s[30],
            },
        )
    }
}

fn push_all(out: &mut Vec<u8>, bytes: &Vec<u8>)
    ensures
        final(out)@ == old(out)@ + bytes@,
{
    let mut i: usize = 0;
    while i < bytes.len()
        invariant
            i <= bytes@.len(),
            out@ == old(out)@ + bytes@.subrange(0, i as int),
        decreases bytes@.len() - i,
    {
        out.push(bytes[i]);
        i = i + 1;
        assert(bytes@.subrange(0, i as int) =~= bytes@.subrange(0, i - 1) + seq![bytes@[i - 1]]);
    }
    assert(bytes@.subrange(0, i as int) =~= bytes@);
}

impl Side {
    pub fn code(&self) -> (r: u8)
        ensures
            r == side_code(*self),
    {
        match self {
            Side::Buy => 1,
            Side::Sell => 2,
        }
    }

    pub fn from_code(b: u8) -> (r: Option<Side>)
        ensures
            r == side_of_code(b),
    {
        if b == 1 {
            Some(Side::Buy)
        } else if b == 2 {
            Some(Side::Sell)
        } else {
            None
        }
    }
}

impl ExchangeID {
    pub fn code(&self) -> (r: u8)
        ensures
            r == venue_code(*self),
    {
        match self {
            ExchangeID::Binance => 1,
            ExchangeID::Bybit => 2,
            ExchangeID::Coinbase => 3,
        }
    }

    pub fn from_code(b: u8) -> (r: Option<ExchangeID>)
        ensures
            r == venue_of_code(b),
    {
        if b == 1 {
            Some(ExchangeID::Binance)
        } else if b == 2 {
            Some(ExchangeID::Bybit)
        } else if b == 3 {
            Some(ExchangeID::Coinbase)
        } else {
            None
        }
    }
}

impl MarketDataUpdate {
    /// Encodes the update as its 31-byte frame.
    pub fn to_bytes(&self) -> (r: [u8; 31])
        ensures
            r@ == frame_of(*self),
    {
        let mut v: Vec<u8> = Vec::new();
        push_all(&mut v, &u64_to_le_bytes(self.timestamp));
        v.push(self.exchange_id.code());
        push_all(&mut v, &u32_to_le_bytes(self.symbol_id));
        v.push(self.side.code());
        push_all(&mut v, &u64_to_le_bytes(self.price as u64));
        push_all(&mut v, &u64_to_le_bytes(self.quantity));
        v.push(self.is_snapshot);
        proof {
            lemma_auto_spec_u32_to_from_le_bytes();
            lemma_auto_spec_u64_to_from_le_bytes();
        }
        assert(v@ =~= frame_of(*self));
        let mut buf = [0u8; 31];
        let mut i: usize = 0;
        while i < FRAME_LEN
            invariant
                i <= FRAME_LEN,
                v@.len() == FRAME_LEN,
                buf@.len() == FRAME_LEN,
                forall|k: int| 0 <= k < i ==> buf@[k] == v@[k],
            decreases FRAME_LEN - i,
        {
            buf[i] = v[i];
            i = i + 1;
        }
        assert(buf@ =~= v@);
        buf
    }
}

/// Decodes a frame. Bytes past the first 31 are ignored.
pub fn decode_market_data(data: &[u8]) -> (r: Result<MarketDataUpdate, FrameError>)
    ensures
        r == decode_frame(data@),
{
    if data.len() < FRAME_LEN {
        return Err(FrameError::TooShort);
    }
    let side = match Side::from_code(data[13]) {
        Some(s) => s,
        None => return Err(FrameError::InvalidSide),
    };
    let exchange_id = match ExchangeID::from_code(data[8]) {
        Some(e) => e,
        None => return Err(FrameError::InvalidVenue),
    };
    let timestamp = u64_from_le_bytes(slice_subrange(data, 0, 8));
    let symbol_id = u32_from_le_bytes(slice_subrange(data, 9, 13));
    let raw_price = u64_from_le_bytes(slice_subrange(data, 14, 22));
    let quantity = u64_from_le_bytes(slice_subrange(data, 22, 30));
    Ok(
        MarketDataUpdate {
            timestamp,
            exchange_id,
            symbol_id,
            side,
            price: raw_price as i64,
            quantity,
            is_snapshot: data[30],
        },
    )
}

/// Decoding the frame of an update gives back that update, field for field.
pub proof fn lemma_frame_round_trip(u: MarketDataUpdate)
    ensures
        frame_of(u).len() == FRAME_LEN,
        decode_frame(frame_of(u)) == Ok::<MarketDataUpdate, FrameError>(u),
{
    lemma_auto_spec_u32_to_from_le_bytes();
    lemma_auto_spec_u64_to_from_le_bytes();
    let s = frame_of(u);
    let ts = spec_u64_to_le_bytes(u.timestamp);
    let sym = spec_u32_to_le_bytes(u.symbol_id);
    let pr = spec_u64_to_le_bytes(u.price as u64);
    let qt = spec_u64_to_le_bytes(u.quantity);
    assert(s.subrange(0, 8) =~= ts);
    assert(s.subrange(9, 13) =~= sym);
    assert(s.subrange(14, 22) =~= pr);
    assert(s.subrange(22, 30) =~= qt);
    let p = u.price;
    assert(((p as u64) as i64) == p) by (bit_vector);
}

} // verus!
