use crate::aggregate::Imbalance;
use std::collections::VecDeque;
use vstd::prelude::*;

verus! {

/// Largest window an `OFICalculator` may be configured with, so that window
/// sums of events fit in 128 bits.
pub const MAX_WINDOW: usize = 0xffff_ffff;

/// Flow event of the bid side when the best bid moves from `last` to
/// `(price, qty)`: the new size when the price rose, minus the old size when
/// it fell, the change in size when it stayed; 0 on the first observation.
pub open spec fn bid_event(last: Option<(i64, u64)>, price: i64, qty: u64) -> int {
    match last {
        None => 0,
        Some((lp, lq)) => if price > lp {
            qty as int
        } else if price < lp {
            -(lq as int)
        } else {
            qty - lq
        },
    }
}

/// Flow event of the ask side: the new size when the price fell, minus the
/// old size when it rose, the change in size when it stayed; 0 on the first
/// observation.
pub open spec fn ask_event(last: Option<(i64, u64)>, price: i64, qty: u64) -> int {
    match last {
        None => 0,
        Some((lp, lq)) => if price < lp {
            qty as int
        } else if price > lp {
            -(lq as int)
        } else {
            qty - lq
        },
    }
}

/// `s` after appending `e` to a window of length `w`: the oldest event
/// leaves once the window would be over its length.
pub open spec fn window_push(s: Seq<i128>, e: i128, w: nat) -> Seq<i128> {
    if s.len() + 1 > w {
        s.push(e).drop_first()
    } else {
        s.push(e)
    }
}

/// The window left by pushing `events`, in order, into an empty one of length `w`.
pub open spec fn window_fill(events: Seq<i128>, w: nat) -> Seq<i128>
    decreases events.len(),
{
    if events.len() == 0 {
        Seq::empty()
    } else {
        window_push(window_fill(events.drop_last(), w), events.last(), w)
    }
}

pub open spec fn sum_events(s: Seq<i128>) -> int
    decreases s.len(),
{
    if s.len() == 0 {
        0
    } else {
        sum_events(s.drop_last()) + s.last()
    }
}

/// The most recent of a sequence of observations, if any.
pub open spec fn last_of(obs: Seq<(i64, u64)>) -> Option<(i64, u64)> {
    if obs.len() == 0 {
        None
    } else {
        Some(obs.last())
    }
}

/// The bid events of a run of best-bid observations, one per observation.
pub open spec fn bid_events_of(obs: Seq<(i64, u64)>) -> Seq<i128>
    decreases obs.len(),
{
    if obs.len() == 0 {
        Seq::empty()
    } else {
        bid_events_of(obs.drop_last()).push(
            bid_event(last_of(obs.drop_last()), obs.last().0, obs.last().1) as i128,
        )
    }
}

/// The ask events of a run of best-ask observations, one per observation.
pub open spec fn ask_events_of(obs: Seq<(i64, u64)>) -> Seq<i128>
    decreases obs.len(),
{
    if obs.len() == 0 {
        Seq::empty()
    } else {
        ask_events_of(obs.drop_last()).push(
            ask_event(last_of(obs.drop_last()), obs.last().0, obs.last().1) as i128,
        )
    }
}

/// The last `w` elements of `s` (all of them when there are fewer), in order.
pub open spec fn latest(s: Seq<i128>, w: nat) -> Seq<i128> {
    s.subrange(if s.len() > w { s.len() - w } else { 0 }, s.len() as int)
}

/// Order flow imbalance over a rolling window of best-level changes.
#[derive(Clone)]
pub struct OFICalculator {
    window_size: usize,
    bid_events: VecDeque<i128>,
    ask_events: VecDeque<i128>,
    last_bid: Option<(i64, u64)>,
    last_ask: Option<(i64, u64)>,
    bid_seen: Ghost<Seq<(i64, u64)>>,
    ask_seen: Ghost<Seq<(i64, u64)>>,
}

impl OFICalculator {
    pub closed spec fn window(&self) -> nat {
        self.window_size as nat
    }

    /// Bid events in the window, oldest first.
    pub closed spec fn bid_events(&self) -> Seq<i128> {
        self.bid_events@
    }

    /// Ask events in the window, oldest first.
    pub closed spec fn ask_events(&self) -> Seq<i128> {
        self.ask_events@
    }

    pub closed spec fn last_bid(&self) -> Option<(i64, u64)> {
        self.last_bid
    }

    pub closed spec fn last_ask(&self) -> Option<(i64, u64)> {
        self.last_ask
    }

    /// Best-bid observations since the tracker was made or last reset, oldest first.
    pub closed spec fn bid_observations(&self) -> Seq<(i64, u64)> {
        self.bid_seen@
    }

    /// Best-ask observations since the tracker was made or last reset, oldest first.
    pub closed spec fn ask_observations(&self) -> Seq<(i64, u64)> {
        self.ask_seen@
    }

    /// Each window is what pushing the events of all observations since the
    /// last reset leaves, the last observation is the reference for the next
    /// event, and events are within the range of a quantity.
    pub closed spec fn wf(&self) -> bool {
        &&& self.bid_events@ == window_fill(bid_events_of(self.bid_seen@), self.window_size as nat)
        &&& self.ask_events@ == window_fill(ask_events_of(self.ask_seen@), self.window_size as nat)
        &&& self.last_bid == last_of(self.bid_seen@)
        &&& self.last_ask == last_of(self.ask_seen@)
        &&& self.window_size <= MAX_WINDOW
        &&& self.bid_events@.len() <= self.window_size
        &&& self.ask_events@.len() <= self.window_size
        &&& forall|i: int|
            0 <= i < self.bid_events@.len() ==> -0xffff_ffff_ffff_ffffi128 <= #[trigger] self.bid_events@[i]
                <= 0xffff_ffff_ffff_ffffi128
        &&& forall|i: int|
            0 <= i < self.ask_events@.len() ==> -0xffff_ffff_ffff_ffffi128 <= #[trigger] self.ask_events@[i]
                <= 0xffff_ffff_ffff_ffffi128
    }

    /// Sum of the bid events minus sum of the ask events in the window.
    pub open spec fn spec_ofi(&self) -> int {
        sum_events(self.bid_events()) - sum_events(self.ask_events())
    }

    /// A tracker with empty windows of length `window_size` and no prior observation.
    pub fn new(window_size: usize) -> (r: OFICalculator)
        requires
            window_size <= MAX_WINDOW,
        ensures
            r.wf(),
            r.window() == window_size,
            r.bid_events() == Seq::<i128>::empty(),
            r.ask_events() == Seq::<i128>::empty(),
            r.last_bid() is None,
            r.last_ask() is None,
            r.bid_observations() == Seq::<(i64, u64)>::empty(),
            r.ask_observations() == Seq::<(i64, u64)>::empty(),
    {
        OFICalculator {
            window_size,
            bid_events: VecDeque::with_capacity(window_size),
            ask_events: VecDeque::with_capacity(window_size),
            last_bid: None,
            last_ask: None,
            bid_seen: Ghost(Seq::empty()),
            ask_seen: Ghost(Seq::empty()),
        }
    }

    /// Records one observation of the best bid and best ask, pushing one
    /// event per side into its window, and returns the new OFI.
    pub fn update(&mut self, bid_price: i64, bid_qty: u64, ask_price: i64, ask_qty: u64) -> (r: i128)
        requires
            old(self).wf(),
        ensures
            final(self).wf(),
            final(self).window() == old(self).window(),
            final(self).bid_events() == window_push(
                old(self).bid_events(),
                bid_event(old(self).last_bid(), bid_price, bid_qty) as i128,
                old(self).window(),
            ),
            final(self).ask_events() == window_push(
                old(self).ask_events(),
                ask_event(old(self).last_ask(), ask_price, ask_qty) as i128,
                old(self).window(),
            ),
            final(self).last_bid() == Some((bid_price, bid_qty)),
            final(self).last_ask() == Some((ask_price, ask_qty)),
            final(self).bid_observations() == old(self).bid_observations().push((bid_price, bid_qty)),
            final(self).ask_observations() == old(self).ask_observations().push((ask_price, ask_qty)),
            final(self).bid_events() == latest(
                bid_events_of(final(self).bid_observations()),
                final(self).window(),
            ),
            final(self).ask_events() == latest(
                ask_events_of(final(self).ask_observations()),
                final(self).window(),
            ),
            r == final(self).spec_ofi(),
    {
        let bid_event: i128 = match self.last_bid {
            Some((last_price, last_qty)) => {
                if bid_price > last_price {
                    bid_qty as i128
                } else if bid_price < last_price {
                    -(last_qty as i128)
                } else {
                    bid_qty as i128 - last_qty as i128
                }
            },
            None => 0,
        };
        let ask_event: i128 = match self.last_ask {
            Some((last_price, last_qty)) => {
                if ask_price < last_price {
                    ask_qty as i128
                } else if ask_price > last_price {
                    -(last_qty as i128)
                } else {
                    ask_qty as i128 - last_qty as i128
                }
            },
            None => 0,
        };
        let ghost old_bids = self.bid_events@;
        let ghost old_asks = self.ask_events@;
        let ghost w = self.window_size as nat;
        self.bid_events.push_back(bid_event);
        self.ask_events.push_back(ask_event);
        if self.bid_events.len() > self.window_size {
            self.bid_events.pop_front();
        }
        if self.ask_events.len() > self.window_size {
            self.ask_events.pop_front();
        }
        proof {
            assert(self.bid_events@ =~= window_push(old_bids, bid_event, w));
            assert(self.ask_events@ =~= window_push(old_asks, ask_event, w));
            lemma_bid_step(self.bid_seen@, (bid_price, bid_qty), w);
            lemma_ask_step(self.ask_seen@, (ask_price, ask_qty), w);
        }
        self.bid_seen = Ghost(self.bid_seen@.push((bid_price, bid_qty)));
        self.ask_seen = Ghost(self.ask_seen@.push((ask_price, ask_qty)));
        self.last_bid = Some((bid_price, bid_qty));
        self.last_ask = Some((ask_price, ask_qty));
        self.calculate_ofi()
    }

    fn calculate_ofi(&self) -> (r: i128)
        requires
            self.wf(),
        ensures
            r == self.spec_ofi(),
    {
        let b = sum_window(&self.bid_events, self.window_size);
        let a = sum_window(&self.ask_events, self.window_size);
        b - a
    }

    /// The imbalance of the window's flow against the given depths:
    /// `ofi / (total_bid_depth + total_ask_depth)`.
    pub fn calculate_nobi(&self, total_bid_depth: u64, total_ask_depth: u64) -> (r: Imbalance)
        requires
            self.wf(),
        ensures
            r.net == self.spec_ofi(),
            r.depth == total_bid_depth + total_ask_depth,
    {
        let ofi = self.calculate_ofi();
        Imbalance { net: ofi, depth: total_bid_depth as u128 + total_ask_depth as u128 }
    }

    /// The current OFI.
    pub fn get_ofi(&self) -> (r: i128)
        requires
            self.wf(),
        ensures
            r == self.spec_ofi(),
    {
        self.calculate_ofi()
    }

    /// Clears both windows and both prior observations.
    pub fn reset(&mut self)
        requires
            old(self).wf(),
        ensures
            final(self).wf(),
            final(self).window() == old(self).window(),
            final(self).bid_events() == Seq::<i128>::empty(),
            final(self).ask_events() == Seq::<i128>::empty(),
            final(self).last_bid() is None,
            final(self).last_ask() is None,
            final(self).bid_observations() == Seq::<(i64, u64)>::empty(),
            final(self).ask_observations() == Seq::<(i64, u64)>::empty(),
    {
        self.bid_events.clear();
        self.ask_events.clear();
        self.last_bid = None;
        self.last_ask = None;
        self.bid_seen = Ghost(Seq::empty());
        self.ask_seen = Ghost(Seq::empty());
    }
}

fn sum_window(events: &VecDeque<i128>, w: usize) -> (r: i128)
    requires
        w <= MAX_WINDOW,
        events@.len() <= w,
        forall|i: int|
            0 <= i < events@.len() ==> -0xffff_ffff_ffff_ffffi128 <= #[trigger] events@[i]
                <= 0xffff_ffff_ffff_ffffi128,
    ensures
        r == sum_events(events@),
        -0x1_0000_0000_0000_0000_0000_0000 <= r <= 0x1_0000_0000_0000_0000_0000_0000,
{
    let mut total: i128 = 0;
    let mut i: usize = 0;
    while i < events.len()
        invariant
            i <= events@.len(),
            events@.len() <= MAX_WINDOW,
            forall|k: int|
                0 <= k < events@.len() ==> -0xffff_ffff_ffff_ffffi128 <= #[trigger] events@[k]
                    <= 0xffff_ffff_ffff_ffffi128,
            total == sum_events(events@.subrange(0, i as int)),
            -(i * 0xffff_ffff_ffff_ffffi128) <= total <= i * 0xffff_ffff_ffff_ffffi128,
        decreases events@.len() - i,
    {
        proof {
            let pre = events@.subrange(0, i as int);
            assert(events@.subrange(0, i + 1).drop_last() =~= pre);
            let ii = i as int;
            assert((ii + 1) * 0xffff_ffff_ffff_ffffi128 == ii * 0xffff_ffff_ffff_ffffi128
                + 0xffff_ffff_ffff_ffffi128) by (nonlinear_arith);
            assert((ii + 1) * 0xffff_ffff_ffff_ffffi128 <= 0x1_0000_0000_0000_0000_0000_0000)
                by (nonlinear_arith)
                requires
                    ii < 0x1_0000_0000,
            ;
        }
        total = total + events[i];
        i = i + 1;
    }
    proof {
        assert(events@.subrange(0, i as int) =~= events@);
        let ii = i as int;
        assert(ii * 0xffff_ffff_ffff_ffffi128 <= 0x1_0000_0000_0000_0000_0000_0000)
            by (nonlinear_arith)
            requires
                ii <= 0x1_0000_0000,
        ;
    }
    total
}

/// Order flow imbalance of one step between two best-level observations:
/// the bid event minus the ask event.
pub fn calculate_ofi(
    bid_vol: u64,
    ask_vol: u64,
    prev_bid_vol: u64,
    prev_ask_vol: u64,
    bid_price: i64,
    ask_price: i64,
    prev_bid_price: i64,
    prev_ask_price: i64,
) -> (r: i128)
    ensures
        r == bid_event(Some((prev_bid_price, prev_bid_vol)), bid_price, bid_vol) - ask_event(
            Some((prev_ask_price, prev_ask_vol)),
            ask_price,
            ask_vol,
        ),
{
    let e_b: i128 = if bid_price > prev_bid_price {
        bid_vol as i128
    } else if bid_price < prev_bid_price {
        -(prev_bid_vol as i128)
    } else {
        bid_vol as i128 - prev_bid_vol as i128
    };
    let e_a: i128 = if ask_price > prev_ask_price {
        -(prev_ask_vol as i128)
    } else if ask_price < prev_ask_price {
        ask_vol as i128
    } else {
        ask_vol as i128 - prev_ask_vol as i128
    };
    e_b - e_a
}

/// One more bid observation adds one bid event, and the window it leaves
/// is the window before with that event pushed: the latest `w` events.
proof fn lemma_bid_step(obs: Seq<(i64, u64)>, o: (i64, u64), w: nat)
    ensures
        bid_events_of(obs.push(o)) == bid_events_of(obs).push(
            bid_event(last_of(obs), o.0, o.1) as i128,
        ),
        window_fill(bid_events_of(obs.push(o)), w) == window_push(
            window_fill(bid_events_of(obs), w),
            bid_event(last_of(obs), o.0, o.1) as i128,
            w,
        ),
        window_fill(bid_events_of(obs.push(o)), w) == latest(bid_events_of(obs.push(o)), w),
        last_of(obs.push(o)) == Some(o),
{
    let n = obs.push(o);
    assert(n.drop_last() =~= obs);
    assert(bid_events_of(n).drop_last() =~= bid_events_of(obs));
    lemma_window_keeps_latest(bid_events_of(n), w);
}

/// One more ask observation adds one ask event, and the window it leaves
/// is the window before with that event pushed: the latest `w` events.
proof fn lemma_ask_step(obs: Seq<(i64, u64)>, o: (i64, u64), w: nat)
    ensures
        ask_events_of(obs.push(o)) == ask_events_of(obs).push(
            ask_event(last_of(obs), o.0, o.1) as i128,
        ),
        window_fill(ask_events_of(obs.push(o)), w) == window_push(
            window_fill(ask_events_of(obs), w),
            ask_event(last_of(obs), o.0, o.1) as i128,
            w,
        ),
        window_fill(ask_events_of(obs.push(o)), w) == latest(ask_events_of(obs.push(o)), w),
        last_of(obs.push(o)) == Some(o),
{
    let n = obs.push(o);
    assert(n.drop_last() =~= obs);
    assert(ask_events_of(n).drop_last() =~= ask_events_of(obs));
    lemma_window_keeps_latest(ask_events_of(n), w);
}

/// Pushing any sequence of events into an empty window of length `w` keeps
/// exactly the most recent `w` of them, oldest first.
pub proof fn lemma_window_keeps_latest(events: Seq<i128>, w: nat)
    ensures
        window_fill(events, w) == events.subrange(
            if events.len() > w { events.len() - w } else { 0 },
            events.len() as int,
        ),
    decreases events.len(),
{
    if events.len() > 0 {
        let pre = events.drop_last();
        lemma_window_keeps_latest(pre, w);
        let lo = if pre.len() > w { pre.len() - w } else { 0 };
        let lo2 = if events.len() > w { events.len() - w } else { 0 };
        let f = pre.subrange(lo, pre.len() as int);
        if f.len() + 1 > w {
            assert(f.push(events.last()).drop_first() =~= events.subrange(lo2, events.len() as int));
        } else {
            assert(f.push(events.last()) =~= events.subrange(lo2, events.len() as int));
        }
    }
}

/// The first observation after a reset contributes nothing: with empty
/// windows and no prior observation, one update leaves the OFI at 0.
pub proof fn lemma_first_update_is_neutral(
    w: nat,
    bid_price: i64,
    bid_qty: u64,
    ask_price: i64,
    ask_qty: u64,
)
    ensures
        sum_events(window_push(Seq::empty(), bid_event(None, bid_price, bid_qty) as i128, w))
            - sum_events(window_push(Seq::empty(), ask_event(None, ask_price, ask_qty) as i128, w))
            == 0,
{
    let e: i128 = 0;
    let s = Seq::<i128>::empty().push(e);
    assert(s.drop_last() =~= Seq::<i128>::empty());
    assert(s.drop_first() =~= Seq::<i128>::empty());
    assert(sum_events(Seq::<i128>::empty()) == 0);
    assert(s.last() == 0);
    assert(sum_events(s) == sum_events(s.drop_last()) + s.last());
}

} // verus!
