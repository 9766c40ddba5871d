//! Bounded fan-out of deltas to live subscribers.
//!
//! One publisher per document pushes every raw delta into a channel with a
//! bounded retained history; any number of subscribers read at their own
//! pace. The publisher never waits for a slow subscriber: one that falls
//! behind the retained window silently misses the oldest deltas and resumes
//! at the oldest still retained. Gaps are acceptable — the sync protocol
//! recovers them through a later handshake — but reordering is not: a
//! subscriber observes the deltas it does receive in publish order, which is
//! the fan-out guarantee proved at the bottom of this module.

use vstd::prelude::*;

verus! {

/// A broadcast channel: the whole publish history (ghost) plus the bounded
/// window of deltas still retained for delivery.
pub struct Broadcast {
    buffer: Vec<Vec<u8>>,
    first: usize,
    capacity: usize,
    history: Ghost<Seq<Seq<u8>>>,
}

/// One subscription: a cursor into the publish history and the record
/// (ghost) of every delta delivered so far, with its publish index.
pub struct Subscriber {
    cursor: usize,
    log: Ghost<Seq<(nat, Seq<u8>)>>,
}

impl Broadcast {
    /// Everything ever published on this channel, in publish order.
    pub closed spec fn history(&self) -> Seq<Seq<u8>> {
        self.history@
    }

    /// The publish index of the oldest delta still retained; everything
    /// older has been dropped to keep the window bounded.
    pub closed spec fn first_retained(&self) -> int {
        self.first as int
    }

    /// How many deltas the channel retains at most.
    pub closed spec fn capacity_spec(&self) -> int {
        self.capacity as int
    }

    /// The retained window is exactly the tail of the history, the window
    /// never exceeds the capacity, and all positions stay addressable.
    pub closed spec fn wf(&self) -> bool {
        &&& 1 <= self.capacity < usize::MAX
        &&& self.buffer.len() <= self.capacity
        &&& self.first + self.buffer@.len() == self.history@.len()
        &&& self.history@.len() <= usize::MAX
        &&& forall|j: int|
            0 <= j < self.buffer@.len() ==> (#[trigger] self.buffer@[j])@ == self.history@[self.first + j]
    }

    /// A fresh channel that will retain at most `capacity` deltas.
    pub fn new(capacity: usize) -> (r: Broadcast)
        requires
            1 <= capacity < usize::MAX,
        ensures
            r.wf(),
            r.history() == Seq::<Seq<u8>>::empty(),
            r.capacity_spec() == capacity,
    {
        Broadcast { buffer: Vec::new(), first: 0, capacity, history: Ghost(Seq::empty()) }
    }

    /// Publish one delta: it joins the history and the retained window, and
    /// if the window would overflow the oldest retained delta is dropped —
    /// the publisher never blocks on slow consumers.
    pub fn send(&mut self, msg: Vec<u8>)
        requires
            old(self).wf(),
            old(self).history().len() < usize::MAX,
        ensures
            final(self).wf(),
            final(self).history() == old(self).history().push(msg@),
            final(self).capacity_spec() == old(self).capacity_spec(),
            final(self).first_retained() >= old(self).first_retained(),
    {
        proof {
            self.history@ = self.history@.push(msg@);
        }
        self.buffer.push(msg);
        if self.buffer.len() > self.capacity {
            let ghost pushed = self.buffer@;
            self.buffer.remove(0);
            proof {
                assert(forall|j: int|
                    0 <= j < self.buffer@.len() ==> #[trigger] self.buffer@[j] == pushed[j + 1]);
            }
            self.first = self.first + 1;
        }
    }

    /// Open a subscription. A new subscriber starts at the present: it will
    /// observe only deltas published after this call.
    pub fn subscribe(&self) -> (r: Subscriber)
        requires
            self.wf(),
        ensures
            r.wf(self),
            r.received() == Seq::<(nat, Seq<u8>)>::empty(),
            r.cursor_spec() == self.history().len(),
    {
        Subscriber { cursor: self.first + self.buffer.len(), log: Ghost(Seq::empty()) }
    }

    /// Where a subscriber standing at `cursor` resumes reading: its own
    /// position, or the oldest retained delta if the window moved past it.
    pub open spec fn resume_point(&self, cursor: int) -> int {
        if cursor >= self.first_retained() {
            cursor
        } else {
            self.first_retained()
        }
    }

    /// Deliver the next retained delta to `sub`, or `None` if nothing is
    /// pending. A subscriber that lagged behind the window resumes at the
    /// oldest retained delta, missing — never reordering — what was dropped.
    pub fn recv(&self, sub: &mut Subscriber) -> (r: Option<Vec<u8>>)
        requires
            self.wf(),
            old(sub).wf(self),
        ensures
            final(sub).wf(self),
            final(sub).cursor_spec() >= old(sub).cursor_spec(),
            match r {
                None => ({
                    &&& final(sub).received() == old(sub).received()
                    &&& self.resume_point(old(sub).cursor_spec()) == self.history().len()
                    &&& final(sub).cursor_spec() == self.history().len()
                }),
                Some(m) => ({
                    let i = self.resume_point(old(sub).cursor_spec());
                    &&& i < self.history().len()
                    &&& m@ == self.history()[i]
                    &&& final(sub).cursor_spec() == i + 1
                    &&& final(sub).received() == old(sub).received().push((i as nat, m@))
                }),
            },
    {
        let ghost prior = *sub;
        if sub.cursor < self.first {
            // The window moved past this subscriber: skip what is gone.
            sub.cursor = self.first;
        }
        if sub.cursor >= self.first + self.buffer.len() {
            proof {
                lemma_log_still_wf(prior, *sub, *self);
            }
            return None;
        }
        let idx = sub.cursor - self.first;
        let m = crate::storage::clone_bytes(&self.buffer[idx]);
        proof {
            sub.log@ = sub.log@.push((sub.cursor as nat, m@));
        }
        sub.cursor = sub.cursor + 1;
        proof {
            lemma_log_grows_wf(prior, *sub, *self);
        }
        Some(m)
    }
}

impl Subscriber {
    /// Where this subscriber stands in the publish history: everything
    /// before the cursor is either delivered or missed, never pending.
    pub closed spec fn cursor_spec(&self) -> int {
        self.cursor as int
    }

    /// Every delta delivered so far, each with the publish index it had.
    pub closed spec fn received(&self) -> Seq<(nat, Seq<u8>)> {
        self.log@
    }

    /// The delivery record is consistent with the channel: every delivered
    /// delta is a real history entry below the cursor, and deliveries
    /// happened in strictly increasing publish order.
    pub open spec fn wf(&self, chan: &Broadcast) -> bool {
        &&& self.cursor_spec() <= chan.history().len()
        &&& forall|k: int|
            0 <= k < self.received().len() ==> (#[trigger] self.received()[k]).0
                < self.cursor_spec() && self.received()[k].1 == chan.history()[self.received()[k].0 as int]
        &&& forall|k1: int, k2: int|
            0 <= k1 < k2 < self.received().len() ==> (#[trigger] self.received()[k1]).0 < (
            #[trigger] self.received()[k2]).0
    }
}

/// Moving a subscriber's cursor forward without delivering keeps it
/// well-formed.
proof fn lemma_log_still_wf(prior: Subscriber, now: Subscriber, chan: Broadcast)
    requires
        prior.wf(&chan),
        now.log == prior.log,
        prior.cursor_spec() <= now.cursor_spec() <= chan.history().len(),
    ensures
        now.wf(&chan),
{
    assert forall|k: int| 0 <= k < now.received().len() implies (#[trigger] now.received()[k]).0
        < now.cursor_spec() && now.received()[k].1 == chan.history()[now.received()[k].0 as int] by {
        assert((prior.received()[k]).0 < prior.cursor_spec());
    }
    assert forall|k1: int, k2: int|
        0 <= k1 < k2 < now.received().len() implies (#[trigger] now.received()[k1]).0 < (
    #[trigger] now.received()[k2]).0 by {
        assert((prior.received()[k1]).0 < (prior.received()[k2]).0);
    }
}

/// Delivering the delta at publish index `i` (at or ahead of the cursor)
/// keeps a subscriber well-formed.
proof fn lemma_log_grows_wf(prior: Subscriber, now: Subscriber, chan: Broadcast)
    requires
        prior.wf(&chan),
        now.cursor_spec() <= chan.history().len(),
        prior.cursor_spec() < now.cursor_spec(),
        now.log@ == prior.log@.push(((now.cursor_spec() - 1) as nat, chan.history()[now.cursor_spec() - 1])),
    ensures
        now.wf(&chan),
{
    let n = prior.received().len() as int;
    assert forall|k: int| 0 <= k < now.received().len() implies (#[trigger] now.received()[k]).0
        < now.cursor_spec() && now.received()[k].1 == chan.history()[now.received()[k].0 as int] by {
        if k < n {
            assert(now.received()[k] == prior.received()[k]);
            assert((prior.received()[k]).0 < prior.cursor_spec());
        }
    }
    assert forall|k1: int, k2: int|
        0 <= k1 < k2 < now.received().len() implies (#[trigger] now.received()[k1]).0 < (
    #[trigger] now.received()[k2]).0 by {
        if k2 < n {
            assert((prior.received()[k1]).0 < (prior.received()[k2]).0);
        } else {
            assert(now.received()[k1] == prior.received()[k1]);
            assert((prior.received()[k1]).0 < prior.cursor_spec());
        }
    }
}

/// Publishing more deltas never invalidates a subscriber: its record still
/// matches the grown history.
pub proof fn lemma_subscriber_survives_send(sub: Subscriber, before: Broadcast, after: Broadcast)
    requires
        sub.wf(&before),
        after.history().len() >= before.history().len(),
        after.history().subrange(0, before.history().len() as int) == before.history(),
    ensures
        sub.wf(&after),
{
    assert forall|k: int| 0 <= k < sub.received().len() implies (#[trigger] sub.received()[k]).0
        < sub.cursor_spec() && sub.received()[k].1 == after.history()[sub.received()[k].0 as int] by {
        assert(before.history()[sub.received()[k].0 as int] == after.history().subrange(
            0,
            before.history().len() as int,
        )[sub.received()[k].0 as int]);
    }
}

/// Fan-out ordering: any two deltas one subscriber observed stand in its
/// delivery record in the order they were published. Deltas may be missed
/// under overflow, but never reordered.
pub proof fn lemma_fanout_ordering(sub: Subscriber, chan: Broadcast, k1: int, k2: int)
    requires
        sub.wf(&chan),
        0 <= k1 < k2 < sub.received().len(),
    ensures
        sub.received()[k1].0 < sub.received()[k2].0,
        sub.received()[k1].1 == chan.history()[sub.received()[k1].0 as int],
        sub.received()[k2].1 == chan.history()[sub.received()[k2].0 as int],
{
}

} // verus!
