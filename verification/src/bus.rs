//! Broadcast bus: one producer, any number of subscribers.
//!
//! The bus is a registry of per-subscriber bounded queues. Publishing never
//! blocks: a subscriber whose queue is full loses its oldest unread message
//! and its lag count grows instead. Receiving reports the lag once, then goes
//! on with whatever messages are left; a closed bus is reported only after
//! the queue has drained.

use vstd::prelude::*;

verus! {

/// One subscriber's slot in the registry.
pub struct Subscriber {
    /// Messages delivered but not yet received, oldest first.
    pub queue: Vec<String>,
    /// Messages dropped on this subscriber since the lag was last reported.
    pub lagged: u64,
    /// Cleared when the subscriber detaches; an inactive slot is never
    /// delivered to again.
    pub active: bool,
}

/// The fan-out bus.
pub struct Bus {
    /// One slot per subscriber that ever attached, in attach order.
    pub subs: Vec<Subscriber>,
    /// Bound on every subscriber's unread queue.
    pub capacity: usize,
    /// Set once no further message can ever be published.
    pub closed: bool,
}

/// What one receive attempt reports.
pub enum RecvOutcome {
    /// The oldest unread message.
    Received(String),
    /// This many messages were dropped since the subscriber last kept up.
    Lagged(u64),
    /// The bus is closed and nothing unread remains.
    Closed,
    /// Nothing to hand out yet; the caller should wait and ask again.
    Pending,
}

/// A lag count one higher, stopping at the top of the counter's range.
pub open spec fn lag_bump(lag: u64) -> u64 {
    if lag < u64::MAX {
        (lag + 1) as u64
    } else {
        lag
    }
}

/// A subscriber's queue after one message is delivered to it: appended when
/// there is room, else the oldest unread message makes way.
pub open spec fn queue_step(q: Seq<String>, msg: String, cap: nat) -> Seq<String> {
    if q.len() < cap {
        q.push(msg)
    } else {
        q.drop_first().push(msg)
    }
}

/// A subscriber's lag count after one message is delivered to it.
pub open spec fn lag_step(q: Seq<String>, lag: u64, cap: nat) -> u64 {
    if q.len() < cap {
        lag
    } else {
        lag_bump(lag)
    }
}

/// A subscriber's queue after a whole sequence of messages is delivered,
/// oldest first, with no receive in between.
pub open spec fn queue_after(q: Seq<String>, msgs: Seq<String>, cap: nat) -> Seq<String>
    decreases msgs.len(),
{
    if msgs.len() == 0 {
        q
    } else {
        queue_after(queue_step(q, msgs.first(), cap), msgs.drop_first(), cap)
    }
}

/// A subscriber's lag count after a whole sequence of messages is delivered
/// with no receive in between.
pub open spec fn lag_after(q: Seq<String>, lag: u64, msgs: Seq<String>, cap: nat) -> u64
    decreases msgs.len(),
{
    if msgs.len() == 0 {
        lag
    } else {
        lag_after(
            queue_step(q, msgs.first(), cap),
            lag_step(q, lag, cap),
            msgs.drop_first(),
            cap,
        )
    }
}

/// `post` is `pre` after the messages of `msgs` were delivered to every
/// active subscriber, oldest first, and to nobody else.
pub open spec fn delivered_to_all(pre: Bus, post: Bus, msgs: Seq<String>) -> bool {
    &&& post.wf()
    &&& post.subs@.len() == pre.subs@.len()
    &&& post.capacity == pre.capacity
    &&& post.closed == pre.closed
    &&& forall|i: int|
        0 <= i < pre.subs@.len() && (#[trigger] pre.subs@[i]).active ==> {
            &&& post.subs@[i].active
            &&& post.subs@[i].queue@ == queue_after(
                pre.subs@[i].queue@,
                msgs,
                pre.capacity as nat,
            )
            &&& post.subs@[i].lagged == lag_after(
                pre.subs@[i].queue@,
                pre.subs@[i].lagged,
                msgs,
                pre.capacity as nat,
            )
        }
    &&& forall|i: int|
        0 <= i < pre.subs@.len() && !(#[trigger] pre.subs@[i]).active ==> post.subs@[i]
            == pre.subs@[i]
}

impl Bus {
    /// Every queue respects the bound, and the bound is meaningful.
    pub open spec fn wf(self) -> bool {
        &&& self.capacity >= 1
        &&& forall|i: int|
            0 <= i < self.subs@.len() ==> (#[trigger] self.subs@[i]).queue@.len()
                <= self.capacity
    }

    /// A fresh bus with the given queue bound and no subscribers.
    pub fn new(capacity: usize) -> (bus: Bus)
        requires
            capacity >= 1,
        ensures
            bus.wf(),
            bus.subs@.len() == 0,
            bus.capacity == capacity,
            !bus.closed,
    {
        Bus { subs: Vec::new(), capacity, closed: false }
    }

    /// Attach a new subscriber; it will see every message published from now
    /// on, and nothing earlier. The returned identifier names its slot.
    pub fn subscribe(&mut self) -> (id: usize)
        requires
            old(self).wf(),
        ensures
            final(self).wf(),
            id == old(self).subs@.len(),
            final(self).subs@.len() == old(self).subs@.len() + 1,
            forall|i: int|
                0 <= i < old(self).subs@.len() ==> final(self).subs@[i] == old(self).subs@[i],
            final(self).subs@[id as int].queue@.len() == 0,
            final(self).subs@[id as int].lagged == 0,
            final(self).subs@[id as int].active,
            final(self).capacity == old(self).capacity,
            final(self).closed == old(self).closed,
    {
        let id = self.subs.len();
        self.subs.push(Subscriber { queue: Vec::new(), lagged: 0, active: true });
        id
    }

    /// Deliver `msg` to every active subscriber: appended where there is
    /// room; where the queue is full, the oldest unread message is dropped
    /// and the lag count grows. Never blocks, never fails, and a bus with no
    /// active subscribers simply lets the message fall.
    pub fn publish(&mut self, msg: &String)
        requires
            old(self).wf(),
        ensures
            final(self).wf(),
            final(self).subs@.len() == old(self).subs@.len(),
            final(self).capacity == old(self).capacity,
            final(self).closed == old(self).closed,
            forall|i: int|
                0 <= i < old(self).subs@.len() && (#[trigger] old(self).subs@[i]).active ==> {
                    &&& final(self).subs@[i].active
                    &&& final(self).subs@[i].queue@ == queue_step(
                        old(self).subs@[i].queue@,
                        *msg,
                        old(self).capacity as nat,
                    )
                    &&& final(self).subs@[i].lagged == lag_step(
                        old(self).subs@[i].queue@,
                        old(self).subs@[i].lagged,
                        old(self).capacity as nat,
                    )
                },
            forall|i: int|
                0 <= i < old(self).subs@.len() && !(#[trigger] old(self).subs@[i]).active
                    ==> final(self).subs@[i] == old(self).subs@[i],
    {
        let cap = self.capacity;
        let n = self.subs.len();
        let mut i: usize = 0;
        while i < n
            invariant
                n == self.subs@.len(),
                cap == self.capacity,
                i <= n,
                self.capacity == old(self).capacity,
                self.closed == old(self).closed,
                old(self).wf(),
                forall|k: int|
                    0 <= k < self.subs@.len() ==> (#[trigger] self.subs@[k]).queue@.len()
                        <= self.capacity,
                forall|k: int| i <= k < n ==> self.subs@[k] == old(self).subs@[k],
                forall|k: int|
                    0 <= k < i && (#[trigger] old(self).subs@[k]).active ==> {
                        &&& self.subs@[k].active
                        &&& self.subs@[k].queue@ == queue_step(
                            old(self).subs@[k].queue@,
                            *msg,
                            old(self).capacity as nat,
                        )
                        &&& self.subs@[k].lagged == lag_step(
                            old(self).subs@[k].queue@,
                            old(self).subs@[k].lagged,
                            old(self).capacity as nat,
                        )
                    },
                forall|k: int|
                    0 <= k < i && !(#[trigger] old(self).subs@[k]).active ==> self.subs@[k]
                        == old(self).subs@[k],
            decreases n - i,
        {
            let slot = &mut self.subs[i];
            if slot.active {
                if slot.queue.len() >= cap {
                    slot.queue.remove(0);
                    if slot.lagged < u64::MAX {
                        slot.lagged = slot.lagged + 1;
                    }
                }
                slot.queue.push(msg.clone());
            }
            i = i + 1;
        }
    }

    /// Deliver every message of `msgs`, oldest first, to every active
    /// subscriber, as one publish per message would.
    pub fn publish_many(&mut self, msgs: &Vec<String>)
        requires
            old(self).wf(),
        ensures
            delivered_to_all(*old(self), *final(self), msgs@),
    {
        let ghost cap = old(self).capacity as nat;
        let mut k: usize = 0;
        while k < msgs.len()
            invariant
                k <= msgs@.len(),
                self.wf(),
                self.subs@.len() == old(self).subs@.len(),
                self.capacity == old(self).capacity,
                self.closed == old(self).closed,
                cap == old(self).capacity as nat,
                forall|i: int|
                    0 <= i < old(self).subs@.len() && (#[trigger] old(self).subs@[i]).active
                        ==> {
                        &&& self.subs@[i].active
                        &&& self.subs@[i].queue@ == queue_after(
                            old(self).subs@[i].queue@,
                            msgs@.take(k as int),
                            cap,
                        )
                        &&& self.subs@[i].lagged == lag_after(
                            old(self).subs@[i].queue@,
                            old(self).subs@[i].lagged,
                            msgs@.take(k as int),
                            cap,
                        )
                    },
                forall|i: int|
                    0 <= i < old(self).subs@.len() && !(#[trigger] old(self).subs@[i]).active
                        ==> self.subs@[i] == old(self).subs@[i],
            decreases msgs@.len() - k,
        {
            self.publish(&msgs[k]);
            k = k + 1;
            proof {
                assert forall|i: int|
                    0 <= i < old(self).subs@.len() && (#[trigger] old(self).subs@[i]).active
                        implies {
                        &&& self.subs@[i].queue@ == queue_after(
                            old(self).subs@[i].queue@,
                            msgs@.take(k as int),
                            cap,
                        )
                        &&& self.subs@[i].lagged == lag_after(
                            old(self).subs@[i].queue@,
                            old(self).subs@[i].lagged,
                            msgs@.take(k as int),
                            cap,
                        )
                    } by {
                    lemma_delivery_snoc(
                        old(self).subs@[i].queue@,
                        old(self).subs@[i].lagged,
                        msgs@.take(k as int - 1),
                        msgs@[k as int - 1],
                        cap,
                    );
                    assert(msgs@.take(k as int - 1).push(msgs@[k as int - 1]) =~= msgs@.take(
                        k as int,
                    ));
                }
            }
        }
        proof {
            assert(msgs@.take(msgs@.len() as int) =~= msgs@);
        }
    }

    /// One receive attempt for subscriber `id`: an unreported lag comes
    /// first and is reset by being reported; then the oldest unread message;
    /// then, on a closed bus, the terminal notice; otherwise there is simply
    /// nothing yet.
    pub fn recv(&mut self, id: usize) -> (r: RecvOutcome)
        requires
            old(self).wf(),
            id < old(self).subs@.len(),
        ensures
            final(self).wf(),
            final(self).subs@.len() == old(self).subs@.len(),
            final(self).capacity == old(self).capacity,
            final(self).closed == old(self).closed,
            forall|i: int|
                0 <= i < old(self).subs@.len() && i != id ==> final(self).subs@[i] == old(
                    self,
                ).subs@[i],
            final(self).subs@[id as int].active == old(self).subs@[id as int].active,
            old(self).subs@[id as int].lagged > 0 ==> {
                &&& r == RecvOutcome::Lagged(old(self).subs@[id as int].lagged)
                &&& final(self).subs@[id as int].lagged == 0
                &&& final(self).subs@[id as int].queue@ == old(self).subs@[id as int].queue@
            },
            old(self).subs@[id as int].lagged == 0 && old(self).subs@[id as int].queue@.len() > 0
                ==> {
                &&& r == RecvOutcome::Received(old(self).subs@[id as int].queue@.first())
                &&& final(self).subs@[id as int].queue@ == old(
                    self,
                ).subs@[id as int].queue@.drop_first()
                &&& final(self).subs@[id as int].lagged == 0
            },
            old(self).subs@[id as int].lagged == 0 && old(self).subs@[id as int].queue@.len() == 0
                ==> {
                &&& final(self).subs@[id as int] == old(self).subs@[id as int]
                &&& (r == if old(self).closed {
                    RecvOutcome::Closed
                } else {
                    RecvOutcome::Pending
                })
            },
    {
        let closed = self.closed;
        let slot = &mut self.subs[id];
        if slot.lagged > 0 {
            let n = slot.lagged;
            slot.lagged = 0;
            RecvOutcome::Lagged(n)
        } else if slot.queue.len() > 0 {
            let msg = slot.queue.remove(0);
            RecvOutcome::Received(msg)
        } else if closed {
            RecvOutcome::Closed
        } else {
            RecvOutcome::Pending
        }
    }

    /// Detach subscriber `id`: its slot is never delivered to again.
    pub fn unsubscribe(&mut self, id: usize)
        requires
            old(self).wf(),
            id < old(self).subs@.len(),
        ensures
            final(self).wf(),
            final(self).subs@.len() == old(self).subs@.len(),
            final(self).capacity == old(self).capacity,
            final(self).closed == old(self).closed,
            forall|i: int|
                0 <= i < old(self).subs@.len() && i != id ==> final(self).subs@[i] == old(
                    self,
                ).subs@[i],
            !final(self).subs@[id as int].active,
    {
        let slot = &mut self.subs[id];
        slot.active = false;
    }

    /// Mark the bus closed: no further publish will ever happen, and every
    /// subscriber that drains its queue is told so.
    pub fn close(&mut self)
        requires
            old(self).wf(),
        ensures
            final(self).wf(),
            final(self).closed,
            final(self).subs@ == old(self).subs@,
            final(self).capacity == old(self).capacity,
    {
        self.closed = true;
    }
}

/// Delivering one more message after a sequence is one step on the result of
/// the sequence.
pub proof fn lemma_delivery_snoc(q: Seq<String>, lag: u64, msgs: Seq<String>, m: String, cap: nat)
    ensures
        queue_after(q, msgs.push(m), cap) == queue_step(queue_after(q, msgs, cap), m, cap),
        lag_after(q, lag, msgs.push(m), cap) == lag_step(
            queue_after(q, msgs, cap),
            lag_after(q, lag, msgs, cap),
            cap,
        ),
    decreases msgs.len(),
{
    if msgs.len() == 0 {
        assert(msgs.push(m).drop_first() =~= Seq::<String>::empty());
        assert(msgs.push(m).first() == m);
        assert(queue_after(q, msgs.push(m), cap) == queue_step(q, m, cap)) by {
            reveal_with_fuel(queue_after, 2);
        }
        assert(lag_after(q, lag, msgs.push(m), cap) == lag_step(q, lag, cap)) by {
            reveal_with_fuel(lag_after, 2);
        }
    } else {
        assert(msgs.push(m).drop_first() =~= msgs.drop_first().push(m));
        assert(msgs.push(m).first() == msgs.first());
        lemma_delivery_snoc(
            queue_step(q, msgs.first(), cap),
            lag_step(q, lag, cap),
            msgs.drop_first(),
            m,
            cap,
        );
    }
}

/// Bounded delivery in full: pushing `msgs` into a queue that holds `q`
/// within capacity keeps exactly the newest `cap` of `q + msgs`, in order,
/// and grows the lag count by exactly the number of messages that fell out.
pub proof fn lemma_bounded_delivery(q: Seq<String>, lag: u64, msgs: Seq<String>, cap: nat)
    requires
        cap >= 1,
        q.len() <= cap,
        lag + msgs.len() <= u64::MAX,
    ensures
        queue_after(q, msgs, cap) =~= if q.len() + msgs.len() <= cap {
            q + msgs
        } else {
            (q + msgs).skip(q.len() + msgs.len() - cap)
        },
        lag_after(q, lag, msgs, cap) == if q.len() + msgs.len() <= cap {
            lag as int
        } else {
            lag + q.len() + msgs.len() - cap
        },
    decreases msgs.len(),
{
    if msgs.len() == 0 {
        assert(q + msgs =~= q);
    } else {
        let m = msgs.first();
        let rest = msgs.drop_first();
        if q.len() < cap {
            lemma_bounded_delivery(q.push(m), lag, rest, cap);
            assert(q.push(m) + rest =~= q + msgs);
        } else {
            lemma_bounded_delivery(q.drop_first().push(m), lag_bump(lag), rest, cap);
            assert(q.drop_first().push(m) + rest =~= (q + msgs).skip(1));
            if q.len() + msgs.len() > cap && (q + msgs).skip(1).len() > cap {
                assert((q + msgs).skip(1).skip((q + msgs).skip(1).len() - cap) =~= (q
                    + msgs).skip(q.len() + msgs.len() - cap));
            }
        }
    }
}

/// Lag accounting for a subscriber that never drains: after `msgs` are
/// published into its empty queue of capacity `cap`, the queue holds exactly
/// the newest `cap` messages, in order, and the lag count equals the number
/// of older ones that were dropped.
pub proof fn lemma_slow_subscriber(msgs: Seq<String>, cap: nat)
    requires
        cap >= 1,
        msgs.len() <= u64::MAX,
    ensures
        msgs.len() <= cap ==> queue_after(Seq::empty(), msgs, cap) =~= msgs,
        msgs.len() <= cap ==> lag_after(Seq::empty(), 0u64, msgs, cap) == 0,
        msgs.len() > cap ==> queue_after(Seq::empty(), msgs, cap) =~= msgs.skip(
            msgs.len() - cap,
        ),
        msgs.len() > cap ==> lag_after(Seq::empty(), 0u64, msgs, cap) == msgs.len() - cap,
{
    lemma_bounded_delivery(Seq::empty(), 0u64, msgs, cap);
    assert(Seq::empty() + msgs =~= msgs);
}

/// The messages received by a subscriber that receives once after each
/// publish, starting from the given queue: each publish is followed by one
/// receive of the oldest unread message, if any.
pub open spec fn alternating_recv(q: Seq<String>, msgs: Seq<String>, cap: nat) -> Seq<String>
    decreases msgs.len(),
{
    if msgs.len() == 0 {
        Seq::empty()
    } else {
        let q1 = queue_step(q, msgs.first(), cap);
        if q1.len() > 0 {
            seq![q1.first()] + alternating_recv(q1.drop_first(), msgs.drop_first(), cap)
        } else {
            alternating_recv(q1, msgs.drop_first(), cap)
        }
    }
}

/// A subscriber that keeps up sees everything: receiving after every publish,
/// starting from an empty queue, yields exactly the published messages, in
/// publish order, whatever the capacity bound.
pub proof fn lemma_fast_subscriber(msgs: Seq<String>, cap: nat)
    requires
        cap >= 1,
    ensures
        alternating_recv(Seq::empty(), msgs, cap) =~= msgs,
    decreases msgs.len(),
{
    if msgs.len() > 0 {
        let q1 = queue_step(Seq::empty(), msgs.first(), cap);
        assert(q1 =~= seq![msgs.first()]);
        assert(q1.drop_first() =~= Seq::<String>::empty());
        lemma_fast_subscriber(msgs.drop_first(), cap);
        assert(seq![msgs.first()] + msgs.drop_first() =~= msgs);
    }
}

} // verus!
