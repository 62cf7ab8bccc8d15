use vstd::prelude::*;

verus! {

/// Queue bound used for each subscription when no explicit bound is
/// configured.
pub const DEFAULT_QUEUE_BOUND: usize = 100;

/// Model of one subscription: whether it is still open, the number of
/// messages that had been published when it subscribed, its pending queue
/// (oldest first), how many messages were dropped since its last receive,
/// everything it has received so far, and how many messages were dropped
/// over its whole life.
#[verifier::ext_equal]
pub ghost struct SubscriptionModel {
    pub live: bool,
    pub start: nat,
    pub queue: Seq<Seq<char>>,
    pub missed: nat,
    pub received: Seq<Seq<char>>,
    pub dropped: nat,
}

/// Model of the whole broadcaster: the per-subscription queue bound, every
/// message ever published in order, and the subscriptions in creation
/// order.
#[verifier::ext_equal]
pub ghost struct BroadcasterModel {
    pub cap: nat,
    pub published: Seq<Seq<char>>,
    pub subs: Seq<SubscriptionModel>,
}

/// A count one higher, capped at the machine limit of the counter.
pub open spec fn sat_inc(n: nat) -> nat {
    if n < u64::MAX {
        (n + 1) as nat
    } else {
        n
    }
}

/// What one publish does to one subscription: a closed subscription is
/// untouched; a subscription with room gets the message appended; a full
/// subscription loses its oldest pending message to make room and has the
/// drop counted.
pub open spec fn spec_deliver(s: SubscriptionModel, m: Seq<char>, cap: nat) -> SubscriptionModel {
    if !s.live {
        s
    } else if s.queue.len() < cap {
        SubscriptionModel {
            live: s.live,
            start: s.start,
            queue: s.queue.push(m),
            missed: s.missed,
            received: s.received,
            dropped: s.dropped,
        }
    } else {
        SubscriptionModel {
            live: s.live,
            start: s.start,
            queue: s.queue.subrange(1, s.queue.len() as int).push(m),
            missed: sat_inc(s.missed),
            received: s.received,
            dropped: (s.dropped + 1) as nat,
        }
    }
}

/// The per-subscription invariant. Every message published since the
/// subscription began is accounted for exactly once: received, dropped, or
/// still pending; the pending queue is always the most recent suffix of
/// the publish history; and while nothing has been dropped, what was
/// received is exactly the publish history from the subscription point on.
pub open spec fn sub_wf(cap: nat, published: Seq<Seq<char>>, s: SubscriptionModel) -> bool {
    &&& s.queue.len() <= cap
    &&& s.missed <= s.dropped
    &&& (!s.live ==> s.queue.len() == 0)
    &&& (s.live ==> {
        &&& s.start + s.received.len() + s.dropped + s.queue.len() == published.len()
        &&& s.queue == published.subrange(published.len() - s.queue.len(), published.len() as int)
        &&& (s.dropped == 0 ==> s.received == published.subrange(
            s.start as int,
            s.start + s.received.len() as int,
        ))
    })
}

/// The broadcaster invariant: a positive queue bound and every
/// subscription well-formed against the publish history.
pub open spec fn wf(b: BroadcasterModel) -> bool {
    &&& 1 <= b.cap
    &&& forall|i: int| 0 <= i < b.subs.len() ==> sub_wf(b.cap, b.published, #[trigger] b.subs[i])
}

/// What a receive hands back: the next pending message, a notice that
/// `missed` messages were dropped before the next one, nothing pending, or
/// a closed subscription.
pub enum Received {
    Message(String),
    Lagged(u64),
    Empty,
    Closed,
}

/// What one receive does. An unknown or closed subscription reports
/// `Closed`; pending drops are reported first as one `Lagged` notice; then
/// pending messages are handed out oldest first; an idle open subscription
/// reports `Empty`. Only the addressed subscription changes.
pub open spec fn receive_post(pre: BroadcasterModel, post: BroadcasterModel, id: int, r: Received) -> bool {
    if !(0 <= id < pre.subs.len()) {
        &&& (r matches Received::Closed)
        &&& post == pre
    } else {
        let s = pre.subs[id];
        if !s.live {
            &&& (r matches Received::Closed)
            &&& post == pre
        } else if s.missed > 0 {
            &&& (r matches Received::Lagged(n) && n as nat == s.missed)
            &&& post.subs[id] == (SubscriptionModel {
                live: s.live,
                start: s.start,
                queue: s.queue,
                missed: 0,
                received: s.received,
                dropped: s.dropped,
            })
        } else if s.queue.len() > 0 {
            &&& (r matches Received::Message(msg) && msg@ == s.queue[0])
            &&& post.subs[id] == (SubscriptionModel {
                live: s.live,
                start: s.start,
                queue: s.queue.subrange(1, s.queue.len() as int),
                missed: 0,
                received: s.received.push(s.queue[0]),
                dropped: s.dropped,
            })
        } else {
            &&& (r matches Received::Empty)
            &&& post == pre
        }
    }
}

struct Subscription {
    live: bool,
    queue: Vec<String>,
    missed: u64,
    start: Ghost<nat>,
    received: Ghost<Seq<Seq<char>>>,
    dropped: Ghost<nat>,
}

impl Subscription {
    spec fn model(&self) -> SubscriptionModel {
        SubscriptionModel {
            live: self.live,
            start: self.start@,
            queue: self.queue.deep_view(),
            missed: self.missed as nat,
            received: self.received@,
            dropped: self.dropped@,
        }
    }
}

/// Multi-subscriber fan-out: one publish point and any number of
/// independent bounded subscription queues. A slow subscriber only ever
/// loses its own oldest messages; it never blocks the publisher or other
/// subscribers.
pub struct Broadcaster {
    cap: usize,
    subs: Vec<Subscription>,
    published: Ghost<Seq<Seq<char>>>,
}

impl View for Broadcaster {
    type V = BroadcasterModel;

    closed spec fn view(&self) -> BroadcasterModel {
        BroadcasterModel {
            cap: self.cap as nat,
            published: self.published@,
            subs: Seq::new(self.subs@.len(), |i: int| self.subs@[i].model()),
        }
    }
}

impl Broadcaster {
    /// The broadcaster invariant, as callers carry it.
    pub open spec fn inv(&self) -> bool {
        wf(self@)
    }

    /// A broadcaster with no subscriptions and nothing published.
    pub fn new(cap: usize) -> (r: Broadcaster)
        requires
            1 <= cap,
        ensures
            r.inv(),
            r@.cap == cap,
            r@.published == Seq::<Seq<char>>::empty(),
            r@.subs == Seq::<SubscriptionModel>::empty(),
    {
        let r = Broadcaster { cap, subs: Vec::new(), published: Ghost(Seq::empty()) };
        proof {
            assert(r@.subs =~= Seq::<SubscriptionModel>::empty());
        }
        r
    }

    /// A broadcaster with the default per-subscription queue bound.
    pub fn with_default_bound() -> (r: Broadcaster)
        ensures
            r.inv(),
            r@.cap == DEFAULT_QUEUE_BOUND,
            r@.published == Seq::<Seq<char>>::empty(),
            r@.subs == Seq::<SubscriptionModel>::empty(),
    {
        Broadcaster::new(DEFAULT_QUEUE_BOUND)
    }

    /// How many subscriptions exist, open or closed.
    pub fn sub_count(&self) -> (r: usize)
        ensures
            r == self@.subs.len(),
    {
        self.subs.len()
    }

    /// Open a fresh subscription and return its handle. It starts with an
    /// empty queue and will see exactly the messages published from now
    /// on.
    pub fn subscribe(&mut self) -> (id: usize)
        requires
            old(self).inv(),
        ensures
            final(self).inv(),
            id == old(self)@.subs.len(),
            final(self)@.cap == old(self)@.cap,
            final(self)@.published == old(self)@.published,
            final(self)@.subs == old(self)@.subs.push(SubscriptionModel {
                live: true,
                start: old(self)@.published.len(),
                queue: Seq::<Seq<char>>::empty(),
                missed: 0,
                received: Seq::<Seq<char>>::empty(),
                dropped: 0,
            }),
    {
        let ghost pre = self@;
        let id = self.subs.len();
        let sub = Subscription {
            live: true,
            queue: Vec::new(),
            missed: 0,
            start: Ghost(self.published@.len()),
            received: Ghost(Seq::empty()),
            dropped: Ghost(0),
        };
        self.subs.push(sub);
        proof {
            let fresh = SubscriptionModel {
                live: true,
                start: pre.published.len(),
                queue: Seq::<Seq<char>>::empty(),
                missed: 0,
                received: Seq::<Seq<char>>::empty(),
                dropped: 0,
            };
            assert(self@.subs[id as int].queue =~~= fresh.queue);
            assert(self@.subs[id as int] =~~= fresh);
            assert(self@.subs =~~= pre.subs.push(fresh));
            assert(fresh.queue =~~= pre.published.subrange(
                pre.published.len() - 0,
                pre.published.len() as int,
            ));
        }
        id
    }

    /// Publish one message: it is recorded in the history and delivered to
    /// every open subscription independently, each according to
    /// `spec_deliver`. Never blocks on any subscriber.
    pub fn publish(&mut self, msg: &String)
        requires
            old(self).inv(),
        ensures
            final(self).inv(),
            final(self)@.cap == old(self)@.cap,
            final(self)@.published == old(self)@.published.push(msg@),
            final(self)@.subs.len() == old(self)@.subs.len(),
            forall|i: int| 0 <= i < old(self)@.subs.len() ==> final(self)@.subs[i]
                == spec_deliver(#[trigger] old(self)@.subs[i], msg@, old(self)@.cap),
    {
        let ghost pre = self@;
        let ghost m = msg@;
        self.published = Ghost(self.published@.push(m));
        let cap = self.cap;
        let n = self.subs.len();
        let mut i: usize = 0;
        while i < n
            invariant
                i <= n,
                n == self.subs@.len(),
                self.cap == cap,
                cap as nat == pre.cap,
                1 <= cap,
                m == msg@,
                self.published@ == pre.published.push(m),
                pre.subs.len() == n,
                forall|j: int| i <= j < n ==> self@.subs[j] == #[trigger] pre.subs[j],
                forall|j: int| 0 <= j < i ==> self@.subs[j] == spec_deliver(
                    #[trigger] pre.subs[j],
                    m,
                    pre.cap,
                ),
                forall|j: int| 0 <= j < n ==> sub_wf(pre.cap, pre.published, #[trigger] pre.subs[j]),
            decreases n - i,
        {
            let ghost subs0 = self.subs@;
            let ghost s0 = self@.subs[i as int];
            proof {
                assert(s0 == subs0[i as int].model());
            }
            let sub = &mut self.subs[i];
            if sub.live {
                let cloned = msg.clone();
                if sub.queue.len() == cap {
                    let ghost q0 = sub.queue@;
                    sub.queue.remove(0);
                    proof {
                        assert(sub.queue@ =~= q0.subrange(1, q0.len() as int));
                    }
                    if sub.missed < u64::MAX {
                        sub.missed = sub.missed + 1;
                    }
                    sub.dropped = Ghost(sub.dropped@ + 1);
                }
                sub.queue.push(cloned);
            }
            proof {
                assert(self.subs@.len() == n);
                assert(self.subs@ =~= subs0.update(i as int, self.subs@[i as int]));
                if s0.live {
                    if s0.queue.len() < pre.cap {
                        assert(self.subs@[i as int].queue.deep_view() =~~= s0.queue.push(m));
                    } else {
                        let newdv = self.subs@[i as int].queue.deep_view();
                        let rhs = s0.queue.subrange(1, s0.queue.len() as int).push(m);
                        assert(s0.queue.len() == cap);
                        assert(newdv.len() == rhs.len());
                        assert(newdv[newdv.len() - 1] =~= m);
                        assert(forall|k: int| 0 <= k < newdv.len() - 1 ==> newdv[k] =~= #[trigger] rhs[k]);
                        assert(newdv =~~= rhs);
                    }
                }
                assert(s0 == pre.subs[i as int]);
                assert(self@.subs[i as int] =~~= spec_deliver(s0, m, pre.cap));
                assert forall|j: int| i + 1 <= j < n implies self@.subs[j]
                    == #[trigger] pre.subs[j] by {
                    assert(self.subs@[j] == subs0[j]);
                    assert(self@.subs[j] == subs0[j].model());
                }
                assert forall|j: int| 0 <= j < i + 1 implies self@.subs[j] == spec_deliver(
                    #[trigger] pre.subs[j],
                    m,
                    pre.cap,
                ) by {
                    if j < i {
                        assert(self.subs@[j] == subs0[j]);
                        assert(self@.subs[j] == subs0[j].model());
                    }
                }
            }
            i = i + 1;
        }
        proof {
            assert forall|j: int| 0 <= j < self@.subs.len() implies sub_wf(
                self@.cap,
                self@.published,
                #[trigger] self@.subs[j],
            ) by {
                assert(self@.subs[j] == spec_deliver(pre.subs[j], m, pre.cap));
                lemma_deliver_wf(pre.cap, pre.published, pre.subs[j], m);
            }
        }
    }

    /// Receive whatever is next for subscription `id`, without waiting:
    /// first any pending gap notice, then the oldest pending message,
    /// otherwise `Empty`; a closed or unknown handle reports `Closed`.
    pub fn try_receive(&mut self, id: usize) -> (r: Received)
        requires
            old(self).inv(),
        ensures
            final(self).inv(),
            final(self)@.cap == old(self)@.cap,
            final(self)@.published == old(self)@.published,
            final(self)@.subs.len() == old(self)@.subs.len(),
            forall|j: int| 0 <= j < old(self)@.subs.len() && j != id ==> final(self)@.subs[j]
                == #[trigger] old(self)@.subs[j],
            receive_post(old(self)@, final(self)@, id as int, r),
    {
        let ghost pre = self@;
        if id >= self.subs.len() {
            return Received::Closed;
        }
        let ghost s0 = self@.subs[id as int];
        let ghost subs0 = self.subs@;
        proof {
            assert(s0 == pre.subs[id as int]);
            assert(sub_wf(pre.cap, pre.published, pre.subs[id as int]));
        }
        let sub = &mut self.subs[id];
        if !sub.live {
            let r = Received::Closed;
            proof {
                assert(self@ =~~= pre);
            }
            r
        } else if sub.missed > 0 {
            let n = sub.missed;
            sub.missed = 0;
            let r = Received::Lagged(n);
            proof {
                assert(self@.subs[id as int] =~~= (SubscriptionModel {
                    live: s0.live,
                    start: s0.start,
                    queue: s0.queue,
                    missed: 0,
                    received: s0.received,
                    dropped: s0.dropped,
                }));
                assert(receive_post(pre, self@, id as int, r));
                assert forall|j: int| 0 <= j < pre.subs.len() && j != id implies self@.subs[j]
                    == #[trigger] pre.subs[j] by {
                    assert(self.subs@[j] == subs0[j]);
                    assert(self@.subs[j] == subs0[j].model());
                }
                assert forall|j: int| 0 <= j < self@.subs.len() implies sub_wf(
                    self@.cap,
                    self@.published,
                    #[trigger] self@.subs[j],
                ) by {
                    if j != id {
                        assert(self@.subs[j] == pre.subs[j]);
                    }
                    assert(sub_wf(pre.cap, pre.published, pre.subs[j]));
                }
            }
            r
        } else if sub.queue.len() > 0 {
            let msg = sub.queue.remove(0);
            sub.received = Ghost(sub.received@.push(msg@));
            let ghost snew = self@.subs[id as int];
            proof {
                assert(snew.queue =~~= s0.queue.subrange(1, s0.queue.len() as int));
                assert(snew.received =~~= s0.received.push(s0.queue[0]));
                assert(snew =~~= (SubscriptionModel {
                    live: s0.live,
                    start: s0.start,
                    queue: s0.queue.subrange(1, s0.queue.len() as int),
                    missed: 0,
                    received: s0.received.push(s0.queue[0]),
                    dropped: s0.dropped,
                }));
                lemma_receive_wf(pre.cap, pre.published, s0);
                assert forall|j: int| 0 <= j < pre.subs.len() && j != id implies self@.subs[j]
                    == #[trigger] pre.subs[j] by {
                    assert(self.subs@[j] == subs0[j]);
                    assert(self@.subs[j] == subs0[j].model());
                }
                assert forall|j: int| 0 <= j < self@.subs.len() implies sub_wf(
                    self@.cap,
                    self@.published,
                    #[trigger] self@.subs[j],
                ) by {
                    if j != id {
                        assert(self@.subs[j] == pre.subs[j]);
                        assert(sub_wf(pre.cap, pre.published, pre.subs[j]));
                    } else {
                        assert(self@.subs[j] == snew);
                    }
                }
            }
            Received::Message(msg)
        } else {
            let r = Received::Empty;
            proof {
                assert(self@ =~~= pre);
            }
            r
        }
    }

    /// Close subscription `id`: its pending queue is released and later
    /// receives report `Closed`. Closing an already-closed or unknown
    /// handle changes nothing it has not already changed; publishes to a
    /// closed subscription never fault.
    pub fn unsubscribe(&mut self, id: usize)
        requires
            old(self).inv(),
        ensures
            final(self).inv(),
            final(self)@.cap == old(self)@.cap,
            final(self)@.published == old(self)@.published,
            final(self)@.subs.len() == old(self)@.subs.len(),
            forall|j: int| 0 <= j < old(self)@.subs.len() && j != id ==> final(self)@.subs[j]
                == #[trigger] old(self)@.subs[j],
            0 <= id < old(self)@.subs.len() ==> final(self)@.subs[id as int] == (SubscriptionModel {
                live: false,
                start: old(self)@.subs[id as int].start,
                queue: Seq::<Seq<char>>::empty(),
                missed: 0,
                received: old(self)@.subs[id as int].received,
                dropped: old(self)@.subs[id as int].dropped,
            }),
    {
        let ghost pre = self@;
        if id >= self.subs.len() {
            return ;
        }
        let ghost s0 = self@.subs[id as int];
        let ghost subs0 = self.subs@;
        proof {
            assert(s0 == pre.subs[id as int]);
            assert(sub_wf(pre.cap, pre.published, pre.subs[id as int]));
        }
        let sub = &mut self.subs[id];
        sub.live = false;
        sub.missed = 0;
        sub.queue.clear();
        proof {
            assert(self@.subs[id as int].queue =~~= Seq::<Seq<char>>::empty());
            assert(self@.subs[id as int] =~~= (SubscriptionModel {
                live: false,
                start: s0.start,
                queue: Seq::<Seq<char>>::empty(),
                missed: 0,
                received: s0.received,
                dropped: s0.dropped,
            }));
            assert forall|j: int| 0 <= j < pre.subs.len() && j != id implies self@.subs[j]
                == #[trigger] pre.subs[j] by {
                assert(self.subs@[j] == subs0[j]);
                assert(self@.subs[j] == subs0[j].model());
            }
            assert forall|j: int| 0 <= j < self@.subs.len() implies sub_wf(
                self@.cap,
                self@.published,
                #[trigger] self@.subs[j],
            ) by {
                if j != id {
                    assert(self@.subs[j] == pre.subs[j]);
                }
                assert(sub_wf(pre.cap, pre.published, pre.subs[j]));
            }
        }
    }
}

/// One publish preserves the per-subscription invariant.
proof fn lemma_deliver_wf(cap: nat, published: Seq<Seq<char>>, s: SubscriptionModel, m: Seq<char>)
    requires
        1 <= cap,
        sub_wf(cap, published, s),
    ensures
        sub_wf(cap, published.push(m), spec_deliver(s, m, cap)),
{
    let p2 = published.push(m);
    let s2 = spec_deliver(s, m, cap);
    if s.live {
        if s.queue.len() < cap {
            assert(s2.queue =~= p2.subrange(p2.len() - s2.queue.len(), p2.len() as int));
            if s.dropped == 0 {
                assert(s2.received =~= p2.subrange(s2.start as int, s2.start + s2.received.len() as int));
            }
        } else {
            assert(s2.queue =~= p2.subrange(p2.len() - s2.queue.len(), p2.len() as int));
        }
    }
}

/// Handing out the oldest pending message preserves the per-subscription
/// invariant.
proof fn lemma_receive_wf(cap: nat, published: Seq<Seq<char>>, s: SubscriptionModel)
    requires
        sub_wf(cap, published, s),
        s.live,
        s.queue.len() > 0,
    ensures
        sub_wf(cap, published, SubscriptionModel {
            live: s.live,
            start: s.start,
            queue: s.queue.subrange(1, s.queue.len() as int),
            missed: 0,
            received: s.received.push(s.queue[0]),
            dropped: s.dropped,
        }),
{
    let s2 = SubscriptionModel {
        live: s.live,
        start: s.start,
        queue: s.queue.subrange(1, s.queue.len() as int),
        missed: 0,
        received: s.received.push(s.queue[0]),
        dropped: s.dropped,
    };
    assert(s2.queue =~= published.subrange(published.len() - s2.queue.len(), published.len() as int));
    if s.dropped == 0 {
        assert(s.queue[0] == published[published.len() - s.queue.len()]);
        assert(s.start + s.received.len() == published.len() - s.queue.len());
        assert(s2.received =~= published.subrange(s2.start as int, s2.start + s2.received.len() as int));
    }
}

/// A subscriber that has never lost a message holds, between what it has
/// received and what is still pending, exactly every message published
/// since it subscribed, in publish order; once it has drained its queue it
/// has received all of them.
pub proof fn lemma_no_loss_delivery(b: BroadcasterModel, i: int)
    requires
        wf(b),
        0 <= i < b.subs.len(),
        b.subs[i].live,
        b.subs[i].dropped == 0,
    ensures
        b.subs[i].received + b.subs[i].queue == b.published.subrange(
            b.subs[i].start as int,
            b.published.len() as int,
        ),
        b.subs[i].queue.len() == 0 ==> b.subs[i].received == b.published.subrange(
            b.subs[i].start as int,
            b.published.len() as int,
        ),
{
    let s = b.subs[i];
    assert(sub_wf(b.cap, b.published, s));
    assert(s.received + s.queue =~= b.published.subrange(s.start as int, b.published.len() as int));
    if s.queue.len() == 0 {
        assert(s.received =~= s.received + s.queue);
    }
}

} // verus!
