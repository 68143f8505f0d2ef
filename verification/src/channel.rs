//! The broadcast buffer: one input stream fanned out to every
//! subscriber, with bounded per-subscriber buffering. A send is refused
//! while any subscriber still has `capacity` undelivered messages - the
//! backpressure path that lets a slow pipeline throttle the broadcaster.

use vstd::prelude::*;
use std::sync::Arc;
use crate::ingestion::IngestionMessage;

verus! {

/// A bounded fan-out queue. Messages are numbered from 0 in publication
/// order; each subscriber holds a cursor and receives every message
/// published from its subscription onward, in order.
#[derive(Debug)]
pub struct FanOut {
    /// Bound on undelivered messages per subscriber.
    capacity: usize,
    /// Publication number of `buffer[0]`.
    base: u64,
    /// Published messages not yet delivered to every subscriber.
    buffer: Vec<Arc<IngestionMessage>>,
    /// Next publication number each subscriber will receive.
    cursors: Vec<u64>,
}

impl FanOut {
    /// The configured per-subscriber bound.
    pub closed spec fn cap(&self) -> int {
        self.capacity as int
    }

    /// How many messages have been published.
    pub closed spec fn published(&self) -> int {
        self.base + self.buffer@.len()
    }

    /// How many subscribers exist.
    pub closed spec fn num_subscribers(&self) -> int {
        self.cursors@.len() as int
    }

    /// The next publication number subscriber `i` will receive.
    pub closed spec fn cursor_of(&self, i: int) -> int {
        self.cursors@[i] as int
    }

    /// The message with publication number `n`.
    pub closed spec fn msg_at(&self, n: int) -> Arc<IngestionMessage> {
        self.buffer@[n - self.base]
    }

    /// Whether some subscriber has `capacity` undelivered messages, so
    /// that nothing more may be published.
    pub open spec fn lagging(&self) -> bool {
        exists|i: int|
            0 <= i < self.num_subscribers() && self.published() - self.cursor_of(i)
                >= self.cap()
    }

    /// Representation invariant. In particular every cursor lies within
    /// the retained buffer, which never exceeds `capacity` messages.
    pub closed spec fn inv(&self) -> bool {
        &&& self.capacity >= 1
        &&& self.buffer@.len() <= self.capacity
        &&& self.base + self.buffer@.len() <= u64::MAX
        &&& forall|i: int|
            0 <= i < self.cursors@.len() ==> self.base <= #[trigger] self.cursors@[i]
                <= self.base + self.buffer@.len()
    }

    /// An empty fan-out with the given per-subscriber bound.
    pub fn new(capacity: usize) -> (r: Self)
        requires
            capacity >= 1,
        ensures
            r.inv(),
            r.cap() == capacity,
            r.published() == 0,
            r.num_subscribers() == 0,
    {
        FanOut { capacity, base: 0, buffer: Vec::new(), cursors: Vec::new() }
    }

    /// Adds a subscriber. It will see exactly the messages published
    /// from now on: nothing published earlier is ever delivered to it.
    pub fn subscribe(&mut self) -> (h: usize)
        requires
            old(self).inv(),
            old(self).num_subscribers() < usize::MAX,
        ensures
            final(self).inv(),
            h == old(self).num_subscribers(),
            final(self).num_subscribers() == old(self).num_subscribers() + 1,
            final(self).cursor_of(h as int) == old(self).published(),
            final(self).cap() == old(self).cap(),
            final(self).published() == old(self).published(),
            forall|i: int|
                0 <= i < old(self).num_subscribers() ==> final(self).cursor_of(i) == old(self).cursor_of(i),
            forall|n: int|
                old(self).base_of() <= n < old(self).published() ==> final(self).msg_at(n)
                    == old(self).msg_at(n),
    {
        let h = self.cursors.len();
        let frontier: u64 = self.base + self.buffer.len() as u64;
        self.cursors.push(frontier);
        h
    }

    /// Publication number of the oldest retained message.
    pub closed spec fn base_of(&self) -> int {
        self.base as int
    }

    /// How many messages have been published, as a runtime value.
    pub fn published_count(&self) -> (r: u64)
        requires
            self.inv(),
        ensures
            r == self.published(),
    {
        self.base + self.buffer.len() as u64
    }

    /// The least cursor, or the publication frontier when nobody is
    /// subscribed.
    fn min_cursor(&self) -> (r: u64)
        requires
            self.inv(),
        ensures
            self.base_of() <= r <= self.published(),
            forall|i: int| 0 <= i < self.num_subscribers() ==> r <= self.cursor_of(i),
            self.num_subscribers() == 0 ==> r == self.published(),
            self.num_subscribers() > 0 ==> exists|i: int|
                0 <= i < self.num_subscribers() && r == self.cursor_of(i),
    {
        let mut r: u64 = self.base + self.buffer.len() as u64;
        let mut i: usize = 0;
        while i < self.cursors.len()
            invariant
                self.inv(),
                0 <= i <= self.cursors@.len(),
                self.base_of() <= r <= self.published(),
                forall|m: int| 0 <= m < i ==> r <= self.cursors@[m],
                i == 0 ==> r == self.published(),
                (exists|m: int| 0 <= m < i && r == self.cursors@[m]) || r == self.published(),
            decreases self.cursors@.len() - i,
        {
            if self.cursors[i] < r {
                r = self.cursors[i];
            }
            i = i + 1;
        }
        proof {
            assert forall|i: int| 0 <= i < self.num_subscribers() implies r
                <= self.cursor_of(i) by {
                assert(r <= self.cursors@[i]);
            }
            if self.cursors@.len() > 0 {
                if exists|m: int| 0 <= m < self.cursors@.len() && r == self.cursors@[m] {
                    let m = choose|m: int|
                        0 <= m < self.cursors@.len() && r == self.cursors@[m];
                    assert(r == self.cursor_of(m));
                } else {
                    assert(r == self.published());
                    assert(r <= self.cursors@[0]);
                    assert(self.cursors@[0] <= self.base + self.buffer@.len());
                    assert(r == self.cursor_of(0));
                }
            }
        }
        r
    }

    /// Publishes a message to every current subscriber, unless some
    /// subscriber still has `capacity` undelivered messages; then
    /// nothing is published and the caller must wait (backpressure).
    pub fn try_send(&mut self, message: IngestionMessage) -> (ok: bool)
        requires
            old(self).inv(),
            old(self).published() < u64::MAX,
        ensures
            final(self).inv(),
            final(self).cap() == old(self).cap(),
            final(self).num_subscribers() == old(self).num_subscribers(),
            forall|i: int|
                0 <= i < old(self).num_subscribers() ==> final(self).cursor_of(i) == old(self).cursor_of(i),
            ok == !old(self).lagging(),
            ok ==> final(self).published() == old(self).published() + 1 && final(self).msg_at(
                old(self).published(),
            ) == message,
            !ok ==> final(self).published() == old(self).published(),
            forall|i: int, n: int|
                0 <= i < old(self).num_subscribers() && #[trigger] old(self).cursor_of(i) <= n
                    < old(self).published() ==> #[trigger] final(self).msg_at(n) == old(self).msg_at(n),
    {
        let min = self.min_cursor();
        proof {
            assert forall|i: int| 0 <= i < self.cursors@.len() implies min
                <= self.cursors@[i] by {
                assert(min <= self.cursor_of(i));
            }
        }
        while self.base < min
            invariant
                self.capacity == old(self).capacity,
                self.cursors@ == old(self).cursors@,
                self.base_of() <= min <= self.published(),
                self.published() == old(self).published(),
                self.capacity >= 1,
                self.buffer@.len() <= self.capacity,
                self.base + self.buffer@.len() <= u64::MAX,
                forall|i: int|
                    0 <= i < self.cursors@.len() ==> min <= #[trigger] self.cursors@[i]
                        <= self.base + self.buffer@.len(),
                forall|n: int|
                    min <= n < self.published() ==> self.msg_at(n) == old(self).msg_at(n),
            decreases min - self.base,
        {
            self.buffer.remove(0);
            self.base = self.base + 1;
        }
        if self.buffer.len() < self.capacity {
            self.buffer.push(Arc::new(message));
            proof {
                assert(!old(self).lagging()) by {
                    if old(self).lagging() {
                        let i = choose|i: int|
                            0 <= i < old(self).num_subscribers() && old(self).published() - old(self).cursor_of(i) >= old(self).cap();
                        assert(min <= old(self).cursor_of(i));
                    }
                }
            }
            true
        } else {
            proof {
                assert(self.base == min);
                assert(old(self).lagging()) by {
                    assert(self.published() - min >= self.capacity);
                    if self.num_subscribers() > 0 {
                        let i = choose|i: int|
                            0 <= i < self.num_subscribers() && min == self.cursors@[i];
                        assert(old(self).published() - old(self).cursor_of(i) >= old(self).cap());
                    }
                }
            }
            false
        }
    }

    /// Delivers the next message to subscriber `handle`, or `None` when
    /// it has seen everything published so far.
    pub fn recv(&mut self, handle: usize) -> (r: Option<Arc<IngestionMessage>>)
        requires
            old(self).inv(),
            handle < old(self).num_subscribers(),
        ensures
            final(self).inv(),
            final(self).cap() == old(self).cap(),
            final(self).num_subscribers() == old(self).num_subscribers(),
            final(self).published() == old(self).published(),
            forall|i: int|
                0 <= i < old(self).num_subscribers() && i != handle ==> final(self).cursor_of(i)
                    == old(self).cursor_of(i),
            forall|i: int, n: int|
                0 <= i < old(self).num_subscribers() && #[trigger] old(self).cursor_of(i) <= n
                    < old(self).published() ==> #[trigger] final(self).msg_at(n) == old(self).msg_at(n),
            match r {
                Some(m) => {
                    &&& old(self).cursor_of(handle as int) < old(self).published()
                    &&& m == old(self).msg_at(old(self).cursor_of(handle as int))
                    &&& final(self).cursor_of(handle as int) == old(self).cursor_of(
                        handle as int,
                    ) + 1
                },
                None => {
                    &&& old(self).cursor_of(handle as int) >= old(self).published()
                    &&& final(self).cursor_of(handle as int) == old(self).cursor_of(
                        handle as int,
                    )
                },
            },
    {
        let c = self.cursors[handle];
        let frontier: u64 = self.base + self.buffer.len() as u64;
        if c < frontier {
            let idx: usize = (c - self.base) as usize;
            let m = self.buffer[idx].clone();
            self.cursors[handle] = c + 1;
            Some(m)
        } else {
            None
        }
    }
}

/// Backpressure bound: no subscriber ever has more than `capacity`
/// published-but-undelivered messages outstanding.
pub proof fn lemma_backpressure_bound(f: &FanOut)
    requires
        f.inv(),
    ensures
        forall|i: int|
            0 <= i < f.num_subscribers() ==> f.published() - f.cursor_of(i) <= f.cap(),
{
}

} // verus!
