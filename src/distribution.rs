use crate::aggregate::GlobalOrderBook;
use crate::book::{apply_levels, other_side, BookError};
use crate::messages::{frame_of, ExchangeID, MarketDataUpdate, Side};
use std::collections::VecDeque;
use vstd::prelude::*;

verus! {

/// What a subscriber's next read reports instead of a frame.
#[derive(Debug, Clone, Copy, PartialEq, Eq, Structural)]
pub enum RecvError {
    /// This many frames were dropped, oldest first, since the last read.
    Lagged(u64),
    /// Nothing is waiting.
    Empty,
    /// No subscriber has this id.
    Closed,
}

/// The state of one subscriber: its id, the capacity of its queue, the
/// frames waiting in it (oldest first) and the number dropped since its last
/// read.
pub struct SubscriberState {
    pub id: u64,
    pub capacity: nat,
    pub queue: Seq<Seq<u8>>,
    pub dropped: u64,
}

/// One subscriber's bounded queue.
#[derive(Debug)]
pub struct Subscription {
    id: u64,
    capacity: usize,
    queue: VecDeque<[u8; 31]>,
    dropped: u64,
}

impl View for Subscription {
    type V = SubscriberState;

    closed spec fn view(&self) -> SubscriberState {
        SubscriberState {
            id: self.id,
            capacity: self.capacity as nat,
            queue: self.queue@.map_values(|f: [u8; 31]| f@),
            dropped: self.dropped,
        }
    }
}

/// A subscriber after `frame` is offered to it: the frame joins the queue
/// and, when the queue would exceed its capacity, the oldest frame leaves
/// and the drop count goes up by one (staying at `u64::MAX` once there).
pub open spec fn offered(s: SubscriberState, frame: Seq<u8>) -> SubscriberState {
    if s.queue.len() + 1 > s.capacity {
        SubscriberState {
            queue: s.queue.push(frame).drop_first(),
            dropped: if s.dropped < u64::MAX {
                (s.dropped + 1) as u64
            } else {
                s.dropped
            },
            ..s
        }
    } else {
        SubscriberState { queue: s.queue.push(frame), ..s }
    }
}

impl Subscription {
    fn offer(&mut self, frame: [u8; 31])
        requires
            old(self)@.queue.len() <= old(self)@.capacity,
        ensures
            final(self)@ == offered(old(self)@, frame@),
            final(self)@.queue.len() <= final(self)@.capacity,
    {
        self.queue.push_back(frame);
        if self.queue.len() > self.capacity {
            self.queue.pop_front();
            if self.dropped < u64::MAX {
                self.dropped = self.dropped + 1;
            }
        }
        proof {
            assert(self@.queue =~= offered(old(self)@, frame@).queue);
        }
    }

    fn take_next(&mut self) -> (r: Result<[u8; 31], RecvError>)
        ensures
            final(self)@.id == old(self)@.id,
            final(self)@.capacity == old(self)@.capacity,
            old(self)@.dropped > 0 ==> r == Err::<[u8; 31], RecvError>(
                RecvError::Lagged(old(self)@.dropped),
            ) && final(self)@ == (SubscriberState { dropped: 0, ..old(self)@ }),
            old(self)@.dropped == 0 && old(self)@.queue.len() == 0 ==> r == Err::<
                [u8; 31],
                RecvError,
            >(RecvError::Empty) && final(self)@ == old(self)@,
            old(self)@.dropped == 0 && old(self)@.queue.len() > 0 ==> r is Ok && r.unwrap()@
                == old(self)@.queue[0] && final(self)@ == (SubscriberState { queue: old(self)@.queue.drop_first(), ..old(self)@ }),
    {
        if self.dropped > 0 {
            let n = self.dropped;
            self.dropped = 0;
            return Err(RecvError::Lagged(n));
        }
        match self.queue.pop_front() {
            Some(f) => {
                proof {
                    assert(self@.queue =~= old(self)@.queue.drop_first());
                }
                Ok(f)
            },
            None => Err(RecvError::Empty),
        }
    }
}

/// Fan-out of frames to subscribers, each with a bounded queue. A slow
/// subscriber loses its oldest frames; the publisher never waits.
#[derive(Debug)]
pub struct Distributor {
    subscribers: Vec<Subscription>,
    next_id: u64,
}

impl Distributor {
    /// The subscribers, in the order they subscribed.
    pub closed spec fn subscribers(&self) -> Seq<SubscriberState> {
        self.subscribers@.map_values(|s: Subscription| s@)
    }

    /// The id the next subscriber will get.
    pub closed spec fn spec_next_id(&self) -> u64 {
        self.next_id
    }

    /// Ids are distinct and below the next id, and no queue is over its capacity.
    pub open spec fn wf(&self) -> bool {
        let subs = self.subscribers();
        &&& forall|i: int|
            0 <= i < subs.len() ==> (#[trigger] subs[i]).queue.len() <= subs[i].capacity
                && subs[i].id < self.spec_next_id()
        &&& forall|i: int, j: int|
            0 <= i < subs.len() && 0 <= j < subs.len() && i != j ==> subs[i].id != subs[j].id
    }

    /// A distributor with no subscribers.
    pub fn new() -> (r: Distributor)
        ensures
            r.wf(),
            r.subscribers() == Seq::<SubscriberState>::empty(),
            r.spec_next_id() == 0,
    {
        let r = Distributor { subscribers: Vec::new(), next_id: 0 };
        assert(r.subscribers() =~= Seq::<SubscriberState>::empty());
        r
    }

    pub fn len(&self) -> (r: usize)
        ensures
            r == self.subscribers().len(),
    {
        self.subscribers.len()
    }

    /// Adds a subscriber whose queue holds up to `capacity` frames and
    /// returns its id; `None` once every id has been handed out.
    pub fn subscribe(&mut self, capacity: usize) -> (r: Option<u64>)
        requires
            old(self).wf(),
        ensures
            final(self).wf(),
            old(self).spec_next_id() == u64::MAX ==> r is None && final(self).subscribers()
                == old(self).subscribers(),
            old(self).spec_next_id() < u64::MAX ==> r == Some(old(self).spec_next_id())
                && final(self).subscribers() == old(self).subscribers().push(
                SubscriberState {
                    id: old(self).spec_next_id(),
                    capacity: capacity as nat,
                    queue: Seq::empty(),
                    dropped: 0,
                },
            ),
    {
        if self.next_id == u64::MAX {
            return None;
        }
        let id = self.next_id;
        let ghost before = self.subscribers();
        self.subscribers.push(Subscription { id, capacity, queue: VecDeque::new(), dropped: 0 });
        self.next_id = self.next_id + 1;
        proof {
            let want = before.push(
                SubscriberState { id, capacity: capacity as nat, queue: Seq::empty(), dropped: 0 },
            );
            let added = self.subscribers@[self.subscribers@.len() - 1];
            assert(added@.queue =~= Seq::<Seq<u8>>::empty());
            assert(self.subscribers() =~= want);
        }
        Some(id)
    }

    fn position(&self, id: u64) -> (r: Option<usize>)
        ensures
            match r {
                Some(i) => i < self.subscribers().len() && self.subscribers()[i as int].id == id,
                None => forall|i: int|
                    0 <= i < self.subscribers().len() ==> (#[trigger] self.subscribers()[i]).id
                        != id,
            },
    {
        let mut i: usize = 0;
        while i < self.subscribers.len()
            invariant
                i <= self.subscribers@.len(),
                forall|k: int| 0 <= k < i ==> (#[trigger] self.subscribers()[k]).id != id,
            decreases self.subscribers@.len() - i,
        {
            if self.subscribers[i].id == id {
                return Some(i);
            }
            i = i + 1;
        }
        None
    }

    /// Removes the subscriber with this id, as when delivery to it failed.
    /// Returns whether there was one.
    pub fn unsubscribe(&mut self, id: u64) -> (r: bool)
        requires
            old(self).wf(),
        ensures
            final(self).wf(),
            final(self).spec_next_id() == old(self).spec_next_id(),
            r == exists|i: int|
                0 <= i < old(self).subscribers().len() && (#[trigger] old(self).subscribers()[i]).id
                    == id,
            r ==> exists|i: int|
                0 <= i < old(self).subscribers().len() && (#[trigger] old(self).subscribers()[i]).id
                    == id && final(self).subscribers() == old(self).subscribers().remove(i),
            !r ==> final(self).subscribers() == old(self).subscribers(),
    {
        match self.position(id) {
            Some(i) => {
                let ghost before = self.subscribers();
                self.subscribers.remove(i);
                proof {
                    assert(self.subscribers() =~= before.remove(i as int));
                    let subs = self.subscribers();
                    assert forall|a: int, b: int|
                        0 <= a < subs.len() && 0 <= b < subs.len() && a != b implies subs[a].id
                        != subs[b].id by {
                        let a0 = if a < i { a } else { a + 1 };
                        let b0 = if b < i { b } else { b + 1 };
                        assert(subs[a] == before[a0] && subs[b] == before[b0]);
                    }
                    assert forall|a: int| 0 <= a < subs.len() implies (#[trigger] subs[a]).queue.len()
                        <= subs[a].capacity && subs[a].id < self.spec_next_id() by {
                        let a0 = if a < i { a } else { a + 1 };
                        assert(subs[a] == before[a0]);
                    }
                }
                true
            },
            None => false,
        }
    }

    /// Offers `frame` to every subscriber; see `offered`.
    pub fn publish(&mut self, frame: [u8; 31])
        requires
            old(self).wf(),
        ensures
            final(self).wf(),
            final(self).spec_next_id() == old(self).spec_next_id(),
            final(self).subscribers().len() == old(self).subscribers().len(),
            forall|i: int|
                0 <= i < old(self).subscribers().len() ==> #[trigger] final(self).subscribers()[i]
                    == offered(old(self).subscribers()[i], frame@),
    {
        let ghost before = self.subscribers();
        let mut i: usize = 0;
        while i < self.subscribers.len()
            invariant
                i <= self.subscribers@.len(),
                self.subscribers@.len() == before.len(),
                self.next_id == old(self).spec_next_id(),
                forall|k: int|
                    0 <= k < i ==> #[trigger] self.subscribers()[k] == offered(before[k], frame@),
                forall|k: int| i <= k < before.len() ==> #[trigger] self.subscribers()[k] == before[k],
                forall|k: int|
                    0 <= k < before.len() ==> (#[trigger] before[k]).queue.len() <= before[k].capacity
                        && before[k].id < self.next_id,
                forall|a: int, b: int|
                    0 <= a < before.len() && 0 <= b < before.len() && a != b ==> before[a].id
                        != before[b].id,
            decreases before.len() - i,
        {
            assert(self.subscribers()[i as int] == before[i as int]);
            let ghost prev = self.subscribers@;
            let ghost prev_subs = self.subscribers();
            self.subscribers[i].offer(frame);
            proof {
                assert(self.subscribers@.len() == prev.len());
                assert forall|k: int| 0 <= k < prev.len() && k != i implies self.subscribers()[k]
                    == prev_subs[k] by {
                    assert(self.subscribers@[k] == prev[k]);
                    assert(prev_subs[k] == prev[k]@);
                }
                assert(self.subscribers()[i as int] == self.subscribers@[i as int]@);
                assert(self.subscribers()[i as int] == offered(before[i as int], frame@));
                assert forall|k: int| 0 <= k < i + 1 implies #[trigger] self.subscribers()[k]
                    == offered(before[k], frame@) by {
                    if k < i {
                        assert(prev_subs[k] == offered(before[k], frame@));
                    }
                }
                assert forall|k: int| i + 1 <= k < before.len() implies #[trigger] self.subscribers()[k]
                    == before[k] by {
                    assert(prev_subs[k] == before[k]);
                }
            }
            i = i + 1;
        }
        proof {
            let subs = self.subscribers();
            assert forall|k: int| 0 <= k < subs.len() implies #[trigger] subs[k] == offered(
                before[k],
                frame@,
            ) && subs[k].queue.len() <= subs[k].capacity by {}
        }
    }

    /// The next read of subscriber `id`: a pending lag report first (which
    /// clears it), else the oldest waiting frame, else `Empty`. `Closed`
    /// when there is no such subscriber.
    pub fn recv(&mut self, id: u64) -> (r: Result<[u8; 31], RecvError>)
        requires
            old(self).wf(),
        ensures
            final(self).wf(),
            final(self).spec_next_id() == old(self).spec_next_id(),
            final(self).subscribers().len() == old(self).subscribers().len(),
            (forall|i: int|
                0 <= i < old(self).subscribers().len() ==> (#[trigger] old(self).subscribers()[i]).id
                    != id) ==> r == Err::<[u8; 31], RecvError>(RecvError::Closed)
                && final(self).subscribers() == old(self).subscribers(),
            forall|i: int|
                0 <= i < old(self).subscribers().len() && (#[trigger] old(self).subscribers()[i]).id
                    == id ==> {
                    let s = old(self).subscribers()[i];
                    &&& (s.dropped > 0 ==> r == Err::<[u8; 31], RecvError>(
                        RecvError::Lagged(s.dropped),
                    ) && final(self).subscribers() == old(self).subscribers().update(
                        i,
                        SubscriberState { dropped: 0, ..s },
                    ))
                    &&& (s.dropped == 0 && s.queue.len() == 0 ==> r == Err::<[u8; 31], RecvError>(
                        RecvError::Empty,
                    ) && final(self).subscribers() == old(self).subscribers())
                    &&& (s.dropped == 0 && s.queue.len() > 0 ==> r is Ok && r.unwrap()@ == s.queue[0]
                        && final(self).subscribers() == old(self).subscribers().update(
                        i,
                        SubscriberState { queue: s.queue.drop_first(), ..s },
                    ))
                },
    {
        let ghost before = self.subscribers();
        match self.position(id) {
            None => Err(RecvError::Closed),
            Some(i) => {
                let r = self.subscribers[i].take_next();
                proof {
                    assert forall|j: int|
                        0 <= j < before.len() && (#[trigger] before[j]).id == id implies j
                        == i by {}
                    let s = before[i as int];
                    if s.dropped > 0 {
                        assert(self.subscribers() =~= before.update(
                            i as int,
                            SubscriberState { dropped: 0, ..s },
                        ));
                    } else if s.queue.len() == 0 {
                        assert(self.subscribers() =~= before);
                    } else {
                        assert(self.subscribers() =~= before.update(
                            i as int,
                            SubscriberState { queue: s.queue.drop_first(), ..s },
                        ));
                    }
                }
                r
            },
        }
    }
}


/// A subscriber after each of `frames` is offered to it in order, with no read between.
pub open spec fn offered_all(s: SubscriberState, frames: Seq<Seq<u8>>) -> SubscriberState
    decreases frames.len(),
{
    if frames.len() == 0 {
        s
    } else {
        offered(offered_all(s, frames.drop_last()), frames.last())
    }
}

/// A subscriber that reads nothing while `n` frames are published keeps the
/// latest `min(n, capacity)` of them, oldest first, and its next read
/// reports the other `n - capacity` as dropped.
pub proof fn lemma_unread_subscriber_keeps_latest(s: SubscriberState, frames: Seq<Seq<u8>>)
    requires
        s.queue.len() == 0,
        s.dropped == 0,
        frames.len() < u64::MAX,
    ensures
        offered_all(s, frames).queue == frames.subrange(
            if frames.len() > s.capacity { frames.len() - s.capacity } else { 0 },
            frames.len() as int,
        ),
        offered_all(s, frames).dropped == if frames.len() > s.capacity {
            frames.len() - s.capacity
        } else {
            0
        },
        offered_all(s, frames).id == s.id,
        offered_all(s, frames).capacity == s.capacity,
    decreases frames.len(),
{
    if frames.len() > 0 {
        let pre = frames.drop_last();
        lemma_unread_subscriber_keeps_latest(s, pre);
        let c = s.capacity;
        let lo = if pre.len() > c { pre.len() - c } else { 0 };
        let lo2 = if frames.len() > c { frames.len() - c } else { 0 };
        let q = pre.subrange(lo, pre.len() as int);
        if q.len() + 1 > c {
            assert(q.push(frames.last()).drop_first() =~= frames.subrange(lo2, frames.len() as int));
        } else {
            assert(q.push(frames.last()) =~= frames.subrange(lo2, frames.len() as int));
        }
    }
}

/// Ingestion path: each update is applied to the books and, once applied,
/// its frame is offered to every subscriber.
#[derive(Debug)]
pub struct DistributionPipeline {
    pub book: GlobalOrderBook,
    pub distributor: Distributor,
}

impl DistributionPipeline {
    pub open spec fn wf(&self) -> bool {
        self.book.wf() && self.distributor.wf()
    }

    /// Empty books and no subscribers.
    pub fn new() -> (r: DistributionPipeline)
        ensures
            r.wf(),
            r.distributor.subscribers() == Seq::<SubscriberState>::empty(),
            forall|e: ExchangeID, s: Side| #[trigger] r.book.venue(e).side_levels(s).len() == 0,
    {
        DistributionPipeline { book: GlobalOrderBook::new(), distributor: Distributor::new() }
    }

    /// Applies `update` to the book of its venue. When that succeeds the
    /// update's frame is offered to every subscriber; when it fails the error
    /// is returned and nothing is published.
    pub fn ingest(&mut self, update: &MarketDataUpdate) -> (r: Result<(), BookError>)
        requires
            old(self).wf(),
        ensures
            final(self).wf(),
            final(self).distributor.spec_next_id() == old(self).distributor.spec_next_id(),
            forall|e: ExchangeID|
                e != update.exchange_id ==> #[trigger] final(self).book.venue(e) == old(
                    self,
                ).book.venue(e),
            ({
                let before = old(self).book.venue(update.exchange_id);
                let after = final(self).book.venue(update.exchange_id);
                &&& after.side_levels(other_side(update.side)) == before.side_levels(
                    other_side(update.side),
                )
                &&& match apply_levels(
                    before.side_levels(update.side),
                    before.spec_capacity(),
                    update.price,
                    update.quantity,
                ) {
                    Some(s) => r == Ok::<(), BookError>(()) && after.side_levels(update.side) == s,
                    None => r == Err::<(), BookError>(BookError::CapacityExceeded)
                        && after.side_levels(update.side) == before.side_levels(update.side),
                }
            }),
            r is Ok ==> final(self).distributor.subscribers().len()
                == old(self).distributor.subscribers().len() && forall|i: int|
                0 <= i < old(self).distributor.subscribers().len()
                    ==> #[trigger] final(self).distributor.subscribers()[i] == offered(
                    old(self).distributor.subscribers()[i],
                    frame_of(*update),
                ),
            r is Err ==> final(self).distributor.subscribers() == old(
                self,
            ).distributor.subscribers(),
    {
        let r = self.book.on_update(update);
        if r.is_ok() {
            let frame = update.to_bytes();
            self.distributor.publish(frame);
        }
        r
    }
}

} // verus!
