//! The routing table: per-subscriber fanout buffers for broadcast
//! delivery, per-UID bounded queues for directed delivery, wiretap
//! buffers that observe every broadcast, and subscription bookkeeping.
//!
//! Broadcast delivery is lossy towards slow subscribers: a full fanout
//! buffer drops its oldest message, and the publisher never blocks.
//! Directed delivery fails closed: an unknown UID is an error, a full
//! queue is backpressure, and a directed message is never visible on a
//! fanout or wiretap.

use vstd::prelude::*;
use crate::errors::BusError;
use crate::message::{Message, MessageVal};
use crate::text::str_eq;

verus! {

/// The index of the first entry of `s` whose key is `key`, or `-1`.
pub open spec fn assoc_find<T>(s: Seq<(Seq<char>, T)>, key: Seq<char>) -> int
    decreases s.len(),
{
    if s.len() == 0 {
        -1
    } else if s[0].0 == key {
        0
    } else {
        let r = assoc_find(s.drop_first(), key);
        if r == -1 {
            -1
        } else {
            r + 1
        }
    }
}

pub proof fn lemma_assoc_find_at<T>(s: Seq<(Seq<char>, T)>, key: Seq<char>, i: int)
    requires
        0 <= i < s.len(),
        s[i].0 == key,
        forall|j: int| 0 <= j < i ==> s[j].0 != key,
    ensures
        assoc_find(s, key) == i,
    decreases s.len(),
{
    if i > 0 {
        lemma_assoc_find_at(s.drop_first(), key, i - 1);
    }
}

pub proof fn lemma_assoc_find_none<T>(s: Seq<(Seq<char>, T)>, key: Seq<char>)
    requires
        forall|j: int| 0 <= j < s.len() ==> s[j].0 != key,
    ensures
        assoc_find(s, key) == -1,
    decreases s.len(),
{
    if s.len() > 0 {
        lemma_assoc_find_none(s.drop_first(), key);
    }
}

/// One subscriber's buffer on a fanout.  A buffer either belongs to one
/// topic or, with no topic, is a wiretap that observes every broadcast.
pub struct FanoutBuffer {
    /// The topic this receiver is subscribed to; `None` makes it a wiretap.
    pub topic: Option<String>,
    /// The subscribing plugin's name (bookkeeping only).
    pub plugin: String,
    /// Buffered messages, oldest first.
    pub queue: Vec<Message>,
    /// Buffer bound; on overflow the oldest message is dropped.
    pub capacity: usize,
}

/// Mathematical model of a `FanoutBuffer`.
pub ghost struct FanVal {
    pub topic: Option<Seq<char>>,
    pub plugin: Seq<char>,
    pub queue: Seq<MessageVal>,
    pub capacity: int,
}

impl FanoutBuffer {
    pub open spec fn fval(self) -> FanVal {
        FanVal {
            topic: match self.topic {
                Option::Some(t) => Option::Some(t@),
                Option::None => Option::None,
            },
            plugin: self.plugin@,
            queue: self.queue@.map_values(|m: Message| m.mval()),
            capacity: self.capacity as int,
        }
    }
}

/// Mathematical model of a directed queue.
pub ghost struct DirVal {
    pub queue: Seq<MessageVal>,
    pub capacity: int,
}

/// A bounded queue for directed delivery; a full queue rejects.
pub struct DirectQueue {
    pub queue: Vec<Message>,
    pub capacity: usize,
}

impl DirectQueue {
    pub open spec fn dval(self) -> DirVal {
        DirVal {
            queue: self.queue@.map_values(|m: Message| m.mval()),
            capacity: self.capacity as int,
        }
    }
}

/// Whether the buffer observes a broadcast on topic `t`: it is a wiretap
/// or subscribed to exactly `t`.
pub open spec fn observes(b: FanVal, t: Seq<char>) -> bool {
    match b.topic {
        Option::Some(bt) => bt == t,
        Option::None => true,
    }
}

/// What a lossy bounded buffer holds after a publish: the message is
/// appended, and if the buffer was full the oldest message is dropped.
pub open spec fn lossy_push(q: Seq<MessageVal>, capacity: int, m: MessageVal) -> Seq<MessageVal> {
    if q.len() < capacity {
        q.push(m)
    } else {
        q.drop_first().push(m)
    }
}

/// The no-substitution law of lossy broadcast: after a publish, a
/// buffer holds the published message last, and everything else it holds
/// was already buffered — a receiver observes the message or loses it to
/// its own overflow, never a different message in its place.
pub proof fn lemma_lossy_push_no_substitution(q: Seq<MessageVal>, capacity: int, m: MessageVal)
    requires
        capacity >= 1,
    ensures
        lossy_push(q, capacity, m).last() == m,
        forall|i: int|
            0 <= i < lossy_push(q, capacity, m).len() - 1 ==> q.contains(
                #[trigger] lossy_push(q, capacity, m)[i],
            ),
{
    let out = lossy_push(q, capacity, m);
    if q.len() < capacity {
        assert forall|i: int| 0 <= i < out.len() - 1 implies q.contains(#[trigger] out[i]) by {
            assert(out[i] == q[i]);
        }
    } else {
        assert forall|i: int| 0 <= i < out.len() - 1 implies q.contains(#[trigger] out[i]) by {
            assert(out[i] == q[i + 1]);
        }
    }
}

/// How many of the buffers observe a broadcast on topic `t`.
pub open spec fn observer_count(s: Seq<FanVal>, t: Seq<char>) -> int
    decreases s.len(),
{
    if s.len() == 0 {
        0int
    } else {
        observer_count(s.drop_last(), t) + if observes(s.last(), t) {
            1int
        } else {
            0int
        }
    }
}

proof fn lemma_observer_count_bound(s: Seq<FanVal>, t: Seq<char>)
    ensures
        0 <= observer_count(s, t) <= s.len(),
    decreases s.len(),
{
    if s.len() > 0 {
        lemma_observer_count_bound(s.drop_last(), t);
    }
}

/// How many buffers are subscribed to exactly topic `t` (wiretaps not
/// counted).
pub open spec fn topic_count(s: Seq<FanVal>, t: Seq<char>) -> int
    decreases s.len(),
{
    if s.len() == 0 {
        0int
    } else {
        topic_count(s.drop_last(), t) + if s.last().topic == Option::Some(t) {
            1int
        } else {
            0int
        }
    }
}

proof fn lemma_topic_count_bound(s: Seq<FanVal>, t: Seq<char>)
    ensures
        0 <= topic_count(s, t) <= s.len(),
    decreases s.len(),
{
    if s.len() > 0 {
        lemma_topic_count_bound(s.drop_last(), t);
    }
}

proof fn lemma_topic_count_absent(s: Seq<FanVal>, t: Seq<char>)
    requires
        forall|j: int| 0 <= j < s.len() ==> (#[trigger] s[j]).topic != Option::Some(t),
    ensures
        topic_count(s, t) == 0,
    decreases s.len(),
{
    if s.len() > 0 {
        lemma_topic_count_absent(s.drop_last(), t);
    }
}

/// Appending a topic to a plugin's subscription list, creating the entry
/// on first use.
pub open spec fn subs_add(
    s: Seq<(Seq<char>, Seq<Seq<char>>)>,
    plugin: Seq<char>,
    t: Seq<char>,
) -> Seq<(Seq<char>, Seq<Seq<char>>)> {
    let k = assoc_find(s, plugin);
    if k == -1 {
        s.push((plugin, seq![t]))
    } else {
        s.update(k, (plugin, s[k].1.push(t)))
    }
}

/// The routing table.  It owns every receiver buffer; plugins hold
/// receiver indices (for fanouts) or their UID (for directed queues) and
/// drain through `recv` and `recv_direct`.
pub struct DistributionCenter {
    pub receivers: Vec<FanoutBuffer>,
    pub direct: Vec<(String, DirectQueue)>,
    pub plugin_subscriptions: Vec<(String, Vec<String>)>,
    pub channel_capacity: usize,
}

impl DistributionCenter {
    pub open spec fn receivers_v(self) -> Seq<FanVal> {
        self.receivers@.map_values(|b: FanoutBuffer| b.fval())
    }

    pub open spec fn direct_v(self) -> Seq<(Seq<char>, DirVal)> {
        self.direct@.map_values(|e: (String, DirectQueue)| (e.0@, e.1.dval()))
    }

    pub open spec fn subs_v(self) -> Seq<(Seq<char>, Seq<Seq<char>>)> {
        self.plugin_subscriptions@.map_values(
            |e: (String, Vec<String>)| (e.0@, e.1@.map_values(|t: String| t@)),
        )
    }

    /// Well-formedness: every buffer bound is at least one, and directed
    /// queues are keyed uniquely.
    pub open spec fn wf(self) -> bool {
        &&& self.channel_capacity >= 1
        &&& forall|i: int|
            0 <= i < self.receivers@.len() ==> (#[trigger] self.receivers@[i]).capacity >= 1
        &&& forall|i: int|
            0 <= i < self.direct@.len() ==> (#[trigger] self.direct@[i]).1.capacity >= 1
        &&& forall|i: int, j: int|
            0 <= i < j < self.direct@.len() ==> (#[trigger] self.direct@[i]).0@ != (
            #[trigger] self.direct@[j]).0@
    }

    /// A routing table with fanout buffers bounded by `capacity`.
    pub fn with_capacity(capacity: usize) -> (r: DistributionCenter)
        requires
            capacity >= 1,
        ensures
            r.wf(),
            r.receivers_v().len() == 0,
            r.direct_v().len() == 0,
            r.subs_v().len() == 0,
            r.channel_capacity == capacity,
    {
        let r = DistributionCenter {
            receivers: Vec::new(),
            direct: Vec::new(),
            plugin_subscriptions: Vec::new(),
            channel_capacity: capacity,
        };
        proof {
            assert(r.receivers_v() =~= Seq::<FanVal>::empty());
            assert(r.direct_v() =~= Seq::<(Seq<char>, DirVal)>::empty());
            assert(r.subs_v() =~= Seq::<(Seq<char>, Seq<Seq<char>>)>::empty());
        }
        r
    }

    /// A routing table with the default fanout bound of 1024.
    pub fn new() -> (r: DistributionCenter)
        ensures
            r.wf(),
            r.receivers_v().len() == 0,
            r.direct_v().len() == 0,
            r.subs_v().len() == 0,
            r.channel_capacity == 1024,
    {
        DistributionCenter::with_capacity(1024)
    }

    /// Subscribes `plugin_name` to `message_type`: a fresh receiver buffer
    /// observes every later broadcast on that topic, and the subscription
    /// is recorded for bulk unsubscribe.  Returns the receiver's index.
    pub fn subscribe(&mut self, message_type: &str, plugin_name: &str) -> (rid: usize)
        requires
            old(self).wf(),
        ensures
            final(self).wf(),
            rid == old(self).receivers_v().len(),
            final(self).receivers_v() =~= old(self).receivers_v().push(
                FanVal {
                    topic: Option::Some(message_type@),
                    plugin: plugin_name@,
                    queue: Seq::empty(),
                    capacity: old(self).channel_capacity as int,
                },
            ),
            final(self).direct_v() == old(self).direct_v(),
            final(self).subs_v() =~= subs_add(old(self).subs_v(), plugin_name@, message_type@),
            final(self).channel_capacity == old(self).channel_capacity,
    {
        let rid = self.receivers.len();
        let buf = FanoutBuffer {
            topic: Some(message_type.to_owned()),
            plugin: plugin_name.to_owned(),
            queue: Vec::new(),
            capacity: self.channel_capacity,
        };
        proof {
            assert(buf.fval().queue =~= Seq::<MessageVal>::empty());
        }
        self.receivers.push(buf);
        self.record_subscription(plugin_name, message_type);
        proof {
            assert forall|i: int|
                0 <= i < self.receivers@.len() implies (#[trigger] self.receivers@[i]).capacity
                >= 1 by {
                if i < old(self).receivers@.len() {
                    assert(old(self).receivers@[i].capacity >= 1);
                }
            }
            assert(self.receivers_v() =~= old(self).receivers_v().push(
                FanVal {
                    topic: Option::Some(message_type@),
                    plugin: plugin_name@,
                    queue: Seq::empty(),
                    capacity: old(self).channel_capacity as int,
                },
            ));
        }
        rid
    }

    /// Appends a fresh wiretap buffer, which observes every broadcast
    /// regardless of topic, and returns its index.
    pub fn subscribe_all(&mut self, plugin_name: &str) -> (rid: usize)
        requires
            old(self).wf(),
        ensures
            final(self).wf(),
            rid == old(self).receivers_v().len(),
            final(self).receivers_v() =~= old(self).receivers_v().push(
                FanVal {
                    topic: Option::None,
                    plugin: plugin_name@,
                    queue: Seq::empty(),
                    capacity: old(self).channel_capacity as int,
                },
            ),
            final(self).direct_v() == old(self).direct_v(),
            final(self).subs_v() == old(self).subs_v(),
            final(self).channel_capacity == old(self).channel_capacity,
    {
        let rid = self.receivers.len();
        let buf = FanoutBuffer {
            topic: None,
            plugin: plugin_name.to_owned(),
            queue: Vec::new(),
            capacity: self.channel_capacity,
        };
        proof {
            assert(buf.fval().queue =~= Seq::<MessageVal>::empty());
        }
        self.receivers.push(buf);
        proof {
            assert forall|i: int|
                0 <= i < self.receivers@.len() implies (#[trigger] self.receivers@[i]).capacity
                >= 1 by {
                if i < old(self).receivers@.len() {
                    assert(old(self).receivers@[i].capacity >= 1);
                }
            }
            assert(self.receivers_v() =~= old(self).receivers_v().push(
                FanVal {
                    topic: Option::None,
                    plugin: plugin_name@,
                    queue: Seq::empty(),
                    capacity: old(self).channel_capacity as int,
                },
            ));
        }
        rid
    }

    /// Records `plugin_name -> message_type` in the bookkeeping table.
    #[verifier::loop_isolation(false)]
    fn record_subscription(&mut self, plugin_name: &str, message_type: &str)
        ensures
            final(self).subs_v() =~= subs_add(old(self).subs_v(), plugin_name@, message_type@),
            final(self).receivers == old(self).receivers,
            final(self).direct == old(self).direct,
            final(self).channel_capacity == old(self).channel_capacity,
    {
        let ghost s0 = self.subs_v();
        let n = self.plugin_subscriptions.len();
        let mut i: usize = 0;
        while i < n
            invariant
                i <= n,
                n == self.plugin_subscriptions.len(),
                *self == *old(self),
                forall|j: int| 0 <= j < i ==> s0[j].0 != plugin_name@,
                s0 == self.subs_v(),
            decreases n - i,
        {
            if str_eq(self.plugin_subscriptions[i].0.as_str(), plugin_name) {
                proof {
                    lemma_assoc_find_at(s0, plugin_name@, i as int);
                }
                let ghost pre = self.plugin_subscriptions@;
                let mut entry = self.plugin_subscriptions.remove(i);
                entry.1.push(message_type.to_owned());
                let ghost entv = entry;
                self.plugin_subscriptions.insert(i, entry);
                proof {
                    assert(self.plugin_subscriptions@ =~= pre.update(i as int, entv));
                    assert(self.subs_v() =~~= subs_add(s0, plugin_name@, message_type@));
                }
                return ;
            }
            i = i + 1;
        }
        proof {
            lemma_assoc_find_none(s0, plugin_name@);
        }
        let mut topics: Vec<String> = Vec::new();
        topics.push(message_type.to_owned());
        self.plugin_subscriptions.push((plugin_name.to_owned(), topics));
        proof {
            assert(self.subs_v() =~~= subs_add(s0, plugin_name@, message_type@));
        }
    }

    /// Inserts or replaces the directed queue registered for `plugin_id`;
    /// replacement lets a restarted plugin instance take over delivery.
    #[verifier::loop_isolation(false)]
    pub fn register_direct_channel(&mut self, plugin_id: &str, capacity: usize)
        requires
            old(self).wf(),
            capacity >= 1,
        ensures
            final(self).wf(),
            final(self).receivers_v() == old(self).receivers_v(),
            final(self).subs_v() == old(self).subs_v(),
            final(self).channel_capacity == old(self).channel_capacity,
            ({
                let k = assoc_find(old(self).direct_v(), plugin_id@);
                let entry = (plugin_id@, DirVal { queue: Seq::empty(), capacity: capacity as int });
                if k == -1 {
                    final(self).direct_v() =~= old(self).direct_v().push(entry)
                } else {
                    final(self).direct_v() =~= old(self).direct_v().update(k, entry)
                }
            }),
    {
        let ghost d0 = self.direct_v();
        let n = self.direct.len();
        let mut i: usize = 0;
        while i < n
            invariant
                i <= n,
                n == self.direct.len(),
                *self == *old(self),
                forall|j: int| 0 <= j < i ==> d0[j].0 != plugin_id@,
                d0 == self.direct_v(),
            decreases n - i,
        {
            if str_eq(self.direct[i].0.as_str(), plugin_id) {
                proof {
                    lemma_assoc_find_at(d0, plugin_id@, i as int);
                }
                let ghost pre = self.direct@;
                self.direct.remove(i);
                let q = DirectQueue { queue: Vec::new(), capacity };
                proof {
                    assert(q.dval().queue =~= Seq::<MessageVal>::empty());
                }
                let key = plugin_id.to_owned();
                let ghost keyv = key@;
                self.direct.insert(i, (key, q));
                proof {
                    assert(self.direct@.len() == pre.len());
                    assert(forall|a: int| 0 <= a < pre.len() && a != i ==> self.direct@[a] == pre[a]);
                    assert forall|a: int|
                        0 <= a < self.direct@.len() implies (#[trigger] self.direct@[a]).1.capacity
                        >= 1 by {
                        if a != i {
                            assert(old(self).direct@[a].1.capacity >= 1);
                        }
                    }
                    assert forall|a: int, b: int|
                        0 <= a < b < self.direct@.len() implies self.direct@[a].0@
                        != self.direct@[b].0@ by {
                        assert(old(self).direct@[a].0@ != old(self).direct@[b].0@);
                        assert(self.direct@[a].0@ == old(self).direct@[a].0@);
                        assert(self.direct@[b].0@ == old(self).direct@[b].0@);
                    }
                    assert(final(self).direct_v() =~~= d0.update(
                        i as int,
                        (plugin_id@, DirVal { queue: Seq::empty(), capacity: capacity as int }),
                    ));
                }
                return ;
            }
            i = i + 1;
        }
        proof {
            lemma_assoc_find_none(d0, plugin_id@);
        }
        let q = DirectQueue { queue: Vec::new(), capacity };
        proof {
            assert(q.dval().queue =~= Seq::<MessageVal>::empty());
        }
        self.direct.push((plugin_id.to_owned(), q));
        proof {
            assert forall|a: int|
                0 <= a < self.direct@.len() implies (#[trigger] self.direct@[a]).1.capacity
                >= 1 by {
                if a < old(self).direct@.len() {
                    assert(old(self).direct@[a].1.capacity >= 1);
                }
            }
            assert forall|a: int, b: int|
                0 <= a < b < self.direct@.len() implies self.direct@[a].0@ != self.direct@[b].0@ by {
                if b < old(self).direct@.len() {
                    assert(old(self).direct@[a].0@ != old(self).direct@[b].0@);
                } else {
                    assert(d0[a].0 != plugin_id@);
                    assert(d0[a].0 == old(self).direct@[a].0@);
                }
            }
            assert(final(self).direct_v() =~~= d0.push(
                (plugin_id@, DirVal { queue: Seq::empty(), capacity: capacity as int }),
            ));
        }
    }

    /// Directed delivery to the plugin with UID `plugin_id`.  Fails with
    /// `UnknownRecipient` exactly when no queue is registered for that
    /// UID, with `Backpressure` exactly when the queue is full; otherwise
    /// the one registered queue receives the message.  Fanout and wiretap
    /// buffers never observe a directed message.
    #[verifier::loop_isolation(false)]
    pub fn send_direct(&mut self, plugin_id: &str, message: Message) -> (r: Result<(), BusError>)
        requires
            old(self).wf(),
        ensures
            final(self).wf(),
            final(self).receivers_v() == old(self).receivers_v(),
            final(self).subs_v() == old(self).subs_v(),
            final(self).channel_capacity == old(self).channel_capacity,
            ({
                let k = assoc_find(old(self).direct_v(), plugin_id@);
                &&& k == -1 ==> r == Result::<(), BusError>::Err(BusError::UnknownRecipient)
                    && final(self).direct_v() == old(self).direct_v()
                &&& k != -1 && old(self).direct_v()[k].1.queue.len() >= old(self).direct_v()[k].1.capacity ==> r == Result::<(), BusError>::Err(
                    BusError::Backpressure,
                ) && final(self).direct_v() == old(self).direct_v()
                &&& k != -1 && old(self).direct_v()[k].1.queue.len() < old(self).direct_v()[k].1.capacity ==> r == Result::<(), BusError>::Ok(()) && final(self).direct_v() =~= old(self).direct_v().update(
                    k,
                    (
                        old(self).direct_v()[k].0,
                        DirVal {
                            queue: old(self).direct_v()[k].1.queue.push(message.mval()),
                            capacity: old(self).direct_v()[k].1.capacity,
                        },
                    ),
                )
            }),
    {
        let ghost d0 = self.direct_v();
        let n = self.direct.len();
        let mut i: usize = 0;
        while i < n
            invariant
                i <= n,
                n == self.direct.len(),
                *self == *old(self),
                forall|j: int| 0 <= j < i ==> d0[j].0 != plugin_id@,
                d0 == self.direct_v(),
            decreases n - i,
        {
            if str_eq(self.direct[i].0.as_str(), plugin_id) {
                proof {
                    lemma_assoc_find_at(d0, plugin_id@, i as int);
                }
                let ghost pre = self.direct@;
                let mut entry = self.direct.remove(i);
                if entry.1.queue.len() >= entry.1.capacity {
                    let ghost entv = entry;
                    self.direct.insert(i, entry);
                    proof {
                        assert(self.direct@ =~= pre.update(i as int, entv));
                        assert(self.direct@ =~= pre);
                        assert(final(self).direct_v() =~~= d0);
                    }
                    return Err(BusError::Backpressure);
                }
                entry.1.queue.push(message);
                let ghost entv = entry;
                self.direct.insert(i, entry);
                proof {
                    assert(self.direct@ =~= pre.update(i as int, entv));
                    assert forall|a: int|
                        0 <= a < self.direct@.len() implies (#[trigger] self.direct@[a]).1.capacity
                        >= 1 by {
                        assert(old(self).direct@[a].1.capacity >= 1);
                    }
                    assert forall|a: int, b: int|
                        0 <= a < b < self.direct@.len() implies self.direct@[a].0@
                        != self.direct@[b].0@ by {
                        assert(old(self).direct@[a].0@ != old(self).direct@[b].0@);
                        assert(self.direct@[a].0@ == old(self).direct@[a].0@);
                        assert(self.direct@[b].0@ == old(self).direct@[b].0@);
                    }
                    assert(final(self).direct_v()[i as int].1.queue =~= d0[i as int].1.queue.push(
                        message.mval(),
                    ));
                    assert(final(self).direct_v() =~~= d0.update(
                        i as int,
                        (
                            d0[i as int].0,
                            DirVal {
                                queue: d0[i as int].1.queue.push(message.mval()),
                                capacity: d0[i as int].1.capacity,
                            },
                        ),
                    ));
                }
                return Ok(());
            }
            i = i + 1;
        }
        proof {
            lemma_assoc_find_none(d0, plugin_id@);
        }
        Err(BusError::UnknownRecipient)
    }

    /// Broadcast delivery.  Every buffer that observes the message's topic
    /// (its topic's subscribers and every wiretap) receives it, losing its
    /// own oldest message if full; no other buffer and no directed queue
    /// changes.  Returns the number of observing receivers.
    #[verifier::loop_isolation(false)]
    pub fn distribute(&mut self, message: &Message) -> (count: usize)
        requires
            old(self).wf(),
        ensures
            final(self).wf(),
            final(self).direct_v() == old(self).direct_v(),
            final(self).subs_v() == old(self).subs_v(),
            final(self).channel_capacity == old(self).channel_capacity,
            final(self).receivers_v().len() == old(self).receivers_v().len(),
            forall|i: int|
                0 <= i < old(self).receivers_v().len() ==> #[trigger] final(self).receivers_v()[i]
                    == ({
                    let b = old(self).receivers_v()[i];
                    if observes(b, message.mval().topic) {
                        FanVal { queue: lossy_push(b.queue, b.capacity, message.mval()), ..b }
                    } else {
                        b
                    }
                }),
            count == observer_count(old(self).receivers_v(), message.mval().topic),
    {
        let ghost r0 = self.receivers_v();
        let ghost t = message.mval().topic;
        let n = self.receivers.len();
        let mut count: usize = 0;
        let mut i: usize = 0;
        proof {
            lemma_observer_count_bound(r0, t);
            assert(r0.take(0) =~= Seq::<FanVal>::empty());
        }
        while i < n
            invariant
                i <= n,
                n == self.receivers.len(),
                old(self).wf(),
                n == r0.len(),
                r0 == old(self).receivers_v(),
                t == message.mval().topic,
                self.direct == old(self).direct,
                self.plugin_subscriptions == old(self).plugin_subscriptions,
                self.channel_capacity == old(self).channel_capacity,
                count == observer_count(r0.take(i as int), t),
                count <= i,
                self.wf(),
                self.receivers@.len() == n,
                forall|j: int|
                    i <= j < n ==> #[trigger] self.receivers_v()[j] == r0[j],
                forall|j: int|
                    0 <= j < i ==> #[trigger] self.receivers_v()[j] == ({
                        let b = r0[j];
                        if observes(b, t) {
                            FanVal { queue: lossy_push(b.queue, b.capacity, message.mval()), ..b }
                        } else {
                            b
                        }
                    }),
            decreases n - i,
        {
            let ghost prev = self.receivers_v();
            proof {
                assert(r0.take(i + 1).drop_last() =~= r0.take(i as int));
                assert(r0.take(i + 1).last() == r0[i as int]);
            }
            let is_observer = match &self.receivers[i].topic {
                Some(bt) => str_eq(bt.as_str(), message.message_type.as_str()),
                None => true,
            };
            proof {
                assert(self.receivers_v()[i as int] == r0[i as int]);
                if is_observer {
                    assert(observes(r0[i as int], t));
                } else {
                    assert(!observes(r0[i as int], t));
                }
            }
            if is_observer {
                proof {
                    assert(old(self).receivers@[i as int].capacity >= 1);
                    assert(self.receivers_v()[i as int] == r0[i as int]);
                }
                let ghost pre = self.receivers@;
                let mut buf = self.receivers.remove(i);
                let ghost q0 = buf.fval().queue;
                proof {
                    assert(buf.fval() == r0[i as int]);
                    assert(old(self).receivers@[i as int].capacity >= 1);
                }
                if buf.queue.len() >= buf.capacity {
                    buf.queue.remove(0);
                    proof {
                        assert(buf.fval().queue =~= q0.drop_first());
                    }
                }
                buf.queue.push(message.duplicate());
                let ghost bufv = buf;
                self.receivers.insert(i, buf);
                proof {
                    assert(self.receivers@ =~= pre.update(i as int, bufv));
                    assert forall|j: int|
                        0 <= j < n && j != i as int implies #[trigger] self.receivers_v()[j]
                        == prev[j] by {
                        assert(pre.update(i as int, bufv)[j] == pre[j]);
                        assert(self.receivers@[j] == pre[j]);
                    }
                    assert(self.receivers_v()[i as int].queue =~= lossy_push(
                        r0[i as int].queue,
                        r0[i as int].capacity,
                        message.mval(),
                    ));
                    assert(self.receivers_v()[i as int] == (FanVal {
                        queue: lossy_push(r0[i as int].queue, r0[i as int].capacity, message.mval()),
                        ..r0[i as int]
                    }));
                }
                count = count + 1;
            }
            i = i + 1;
        }
        proof {
            assert(r0.take(n as int) =~= r0);
        }
        count
    }

    /// Pops the oldest buffered message of receiver `rid`, if any.
    #[verifier::loop_isolation(false)]
    pub fn recv(&mut self, rid: usize) -> (r: Option<Message>)
        requires
            old(self).wf(),
            rid < old(self).receivers_v().len(),
        ensures
            final(self).wf(),
            final(self).direct_v() == old(self).direct_v(),
            final(self).subs_v() == old(self).subs_v(),
            final(self).channel_capacity == old(self).channel_capacity,
            final(self).receivers_v().len() == old(self).receivers_v().len(),
            forall|j: int|
                0 <= j < old(self).receivers_v().len() && j != rid
                    ==> #[trigger] final(self).receivers_v()[j] == old(self).receivers_v()[j],
            ({
                let b = old(self).receivers_v()[rid as int];
                if b.queue.len() == 0 {
                    r is None && final(self).receivers_v()[rid as int] == b
                } else {
                    r matches Some(m) && m.mval() == b.queue[0] && final(self).receivers_v()[rid as int] == (FanVal { queue: b.queue.drop_first(), ..b })
                }
            }),
    {
        let ghost b0 = self.receivers_v()[rid as int];
        let ghost pre = self.receivers@;
        let mut buf = self.receivers.remove(rid);
        if buf.queue.len() == 0 {
            let ghost bufv = buf;
            self.receivers.insert(rid, buf);
            proof {
                assert(self.receivers@ =~= pre.update(rid as int, bufv));
                assert(self.receivers@ =~= pre);
                assert(final(self).receivers_v() =~= old(self).receivers_v());
            }
            return None;
        }
        let m = buf.queue.remove(0);
        let ghost bufv = buf;
        self.receivers.insert(rid, buf);
        proof {
            assert(self.receivers@ =~= pre.update(rid as int, bufv));
            assert(final(self).receivers_v()[rid as int].queue =~= b0.queue.drop_first());
            assert(forall|j: int|
                0 <= j < old(self).receivers_v().len() && j != rid ==> #[trigger] final(self).receivers_v()[j] == old(self).receivers_v()[j]);
        }
        Some(m)
    }

    /// Pops the oldest directed message queued for UID `plugin_id`, if any.
    #[verifier::loop_isolation(false)]
    pub fn recv_direct(&mut self, plugin_id: &str) -> (r: Option<Message>)
        requires
            old(self).wf(),
        ensures
            final(self).wf(),
            final(self).receivers_v() == old(self).receivers_v(),
            final(self).subs_v() == old(self).subs_v(),
            final(self).channel_capacity == old(self).channel_capacity,
            ({
                let k = assoc_find(old(self).direct_v(), plugin_id@);
                if k == -1 || old(self).direct_v()[k].1.queue.len() == 0 {
                    r is None && final(self).direct_v() == old(self).direct_v()
                } else {
                    r matches Some(m) && m.mval() == old(self).direct_v()[k].1.queue[0] && final(self).direct_v() =~= old(self).direct_v().update(
                        k,
                        (
                            old(self).direct_v()[k].0,
                            DirVal {
                                queue: old(self).direct_v()[k].1.queue.drop_first(),
                                capacity: old(self).direct_v()[k].1.capacity,
                            },
                        ),
                    )
                }
            }),
    {
        let ghost d0 = self.direct_v();
        let n = self.direct.len();
        let mut i: usize = 0;
        while i < n
            invariant
                i <= n,
                n == self.direct.len(),
                *self == *old(self),
                forall|j: int| 0 <= j < i ==> d0[j].0 != plugin_id@,
                d0 == self.direct_v(),
            decreases n - i,
        {
            if str_eq(self.direct[i].0.as_str(), plugin_id) {
                proof {
                    lemma_assoc_find_at(d0, plugin_id@, i as int);
                }
                let ghost pre = self.direct@;
                let mut entry = self.direct.remove(i);
                if entry.1.queue.len() == 0 {
                    let ghost entv = entry;
                    self.direct.insert(i, entry);
                    proof {
                        assert(self.direct@ =~= pre.update(i as int, entv));
                        assert(self.direct@ =~= pre);
                        assert(final(self).direct_v() =~~= d0);
                    }
                    return None;
                }
                let m = entry.1.queue.remove(0);
                let ghost entv = entry;
                self.direct.insert(i, entry);
                proof {
                    assert(self.direct@ =~= pre.update(i as int, entv));
                    assert(final(self).direct_v()[i as int].1.queue =~= d0[i as int].1.queue
                        .drop_first());
                    assert(final(self).direct_v() =~~= d0.update(
                        i as int,
                        (
                            d0[i as int].0,
                            DirVal {
                                queue: d0[i as int].1.queue.drop_first(),
                                capacity: d0[i as int].1.capacity,
                            },
                        ),
                    ));
                }
                return Some(m);
            }
            i = i + 1;
        }
        proof {
            lemma_assoc_find_none(d0, plugin_id@);
        }
        None
    }

    /// Removes one topic from a plugin's bookkeeping; existing receivers
    /// keep draining what they buffered.
    #[verifier::loop_isolation(false)]
    pub fn unsubscribe(&mut self, plugin_name: &str, message_type: &str)
        requires
            old(self).wf(),
        ensures
            final(self).wf(),
            final(self).receivers_v() == old(self).receivers_v(),
            final(self).direct_v() == old(self).direct_v(),
            final(self).channel_capacity == old(self).channel_capacity,
            ({
                let k = assoc_find(old(self).subs_v(), plugin_name@);
                if k == -1 {
                    final(self).subs_v() == old(self).subs_v()
                } else {
                    final(self).subs_v() =~= old(self).subs_v().update(
                        k,
                        (
                            old(self).subs_v()[k].0,
                            old(self).subs_v()[k].1.filter(|t: Seq<char>| t != message_type@),
                        ),
                    )
                }
            }),
    {
        let ghost s0 = self.subs_v();
        let n = self.plugin_subscriptions.len();
        let mut i: usize = 0;
        while i < n
            invariant
                i <= n,
                n == self.plugin_subscriptions.len(),
                *self == *old(self),
                forall|j: int| 0 <= j < i ==> s0[j].0 != plugin_name@,
                s0 == self.subs_v(),
            decreases n - i,
        {
            if str_eq(self.plugin_subscriptions[i].0.as_str(), plugin_name) {
                proof {
                    lemma_assoc_find_at(s0, plugin_name@, i as int);
                }
                let ghost pre = self.plugin_subscriptions@;
                let mut entry = self.plugin_subscriptions.remove(i);
                let kept = filter_out(&entry.1, message_type);
                entry.1 = kept;
                let ghost entv = entry;
                self.plugin_subscriptions.insert(i, entry);
                proof {
                    assert(self.plugin_subscriptions@ =~= pre.update(i as int, entv));
                    assert(final(self).subs_v() =~~= s0.update(
                        i as int,
                        (s0[i as int].0, s0[i as int].1.filter(|t: Seq<char>| t != message_type@)),
                    ));
                }
                return ;
            }
            i = i + 1;
        }
        proof {
            lemma_assoc_find_none(s0, plugin_name@);
        }
    }

    /// Drops a plugin's whole bookkeeping entry.
    #[verifier::loop_isolation(false)]
    pub fn unsubscribe_all(&mut self, plugin_name: &str)
        requires
            old(self).wf(),
        ensures
            final(self).wf(),
            final(self).receivers_v() == old(self).receivers_v(),
            final(self).direct_v() == old(self).direct_v(),
            final(self).channel_capacity == old(self).channel_capacity,
            ({
                let k = assoc_find(old(self).subs_v(), plugin_name@);
                if k == -1 {
                    final(self).subs_v() == old(self).subs_v()
                } else {
                    final(self).subs_v() =~= old(self).subs_v().remove(k)
                }
            }),
    {
        let ghost s0 = self.subs_v();
        let n = self.plugin_subscriptions.len();
        let mut i: usize = 0;
        while i < n
            invariant
                i <= n,
                n == self.plugin_subscriptions.len(),
                *self == *old(self),
                forall|j: int| 0 <= j < i ==> s0[j].0 != plugin_name@,
                s0 == self.subs_v(),
            decreases n - i,
        {
            if str_eq(self.plugin_subscriptions[i].0.as_str(), plugin_name) {
                proof {
                    lemma_assoc_find_at(s0, plugin_name@, i as int);
                }
                self.plugin_subscriptions.remove(i);
                proof {
                    assert(final(self).subs_v() =~~= s0.remove(i as int));
                }
                return ;
            }
            i = i + 1;
        }
        proof {
            lemma_assoc_find_none(s0, plugin_name@);
        }
    }

    /// Per-topic subscriber counts: one entry for each topic with at
    /// least one receiver, with how many receivers it has.
    #[verifier::loop_isolation(false)]
    pub fn get_subscription_stats(&self) -> (r: Vec<(String, usize)>)
        ensures
            forall|k: int, l: int| 0 <= k < l < r@.len() ==> r@[k].0@ != r@[l].0@,
            forall|k: int|
                0 <= k < r@.len() ==> (#[trigger] r@[k]).1 == topic_count(
                    self.receivers_v(),
                    r@[k].0@,
                ) && r@[k].1 >= 1,
            forall|i: int|
                0 <= i < self.receivers_v().len() && (#[trigger] self.receivers_v()[i]).topic
                    is Some ==> exists|k: int|
                    0 <= k < r@.len() && (#[trigger] r@[k].0@) == self.receivers_v()[i].topic
                        ->Some_0,
    {
        let ghost rv = self.receivers_v();
        let n = self.receivers.len();
        let mut out: Vec<(String, usize)> = Vec::new();
        let mut i: usize = 0;
        proof {
            assert(rv.take(0) =~= Seq::<FanVal>::empty());
        }
        while i < n
            invariant
                i <= n,
                n == rv.len(),
                rv == self.receivers_v(),
                forall|k: int, l: int| 0 <= k < l < out@.len() ==> out@[k].0@ != out@[l].0@,
                forall|k: int|
                    0 <= k < out@.len() ==> (#[trigger] out@[k]).1 == topic_count(
                        rv.take(i as int),
                        out@[k].0@,
                    ) && out@[k].1 >= 1,
                forall|j: int|
                    0 <= j < i && (#[trigger] rv[j]).topic is Some ==> exists|k: int|
                        0 <= k < out@.len() && (#[trigger] out@[k].0@) == rv[j].topic->Some_0,
            decreases n - i,
        {
            proof {
                assert(rv.take(i + 1).drop_last() =~= rv.take(i as int));
                assert(rv.take(i + 1).last() == rv[i as int]);
                lemma_topic_count_bound(rv.take(i as int), rv[i as int].topic->Some_0);
            }
            let topic = match &self.receivers[i].topic {
                Some(t) => Some(t.clone()),
                None => None,
            };
            match topic {
                Some(t) => {
                    let ghost tv = t@;
                    let mut k: usize = 0;
                    let m = out.len();
                    let mut found = false;
                    while k < m && !found
                        invariant
                            k <= m,
                            m == out@.len(),
                            !found ==> forall|l: int| 0 <= l < k ==> out@[l].0@ != tv,
                            found ==> k < m && out@[k as int].0@ == tv,
                        decreases m - k + if found {
                            0int
                        } else {
                            1int
                        },
                    {
                        if str_eq(out[k].0.as_str(), t.as_str()) {
                            found = true;
                        } else {
                            k = k + 1;
                        }
                    }
                    if found {
                        let ghost pre = out@;
                        let mut entry = out.remove(k);
                        entry.1 = entry.1 + 1;
                        let ghost entv = entry;
                        out.insert(k, entry);
                        proof {
                            assert(out@ =~= pre.update(k as int, entv));
                            assert(entv.0@ == tv);
                            assert forall|q: int|
                                0 <= q < out@.len() implies #[trigger] out@[q] == (if q == k {
                                entv
                            } else {
                                pre[q]
                            }) by {
                                assert(pre.update(k as int, entv)[q] == if q == k {
                                    entv
                                } else {
                                    pre[q]
                                });
                            }
                            assert forall|q: int|
                                0 <= q < out@.len() implies (#[trigger] out@[q]).1 == topic_count(
                                rv.take(i + 1),
                                out@[q].0@,
                            ) && out@[q].1 >= 1 by {
                                if q != k {
                                    assert(out@[q] == pre[q]);
                                    assert(out@[q].0@ != tv);
                                }
                            }
                            assert forall|j: int|
                                0 <= j < i + 1 && (#[trigger] rv[j]).topic is Some implies exists|
                                kk: int,
                            |
                                0 <= kk < out@.len() && (#[trigger] out@[kk].0@) == rv[j].topic
                                    ->Some_0 by {
                                if j < i {
                                    let kk = choose|kk: int|
                                        0 <= kk < pre.len() && (#[trigger] pre[kk].0@) == rv[j]
                                            .topic->Some_0;
                                    if kk == k {
                                        assert(out@[kk].0@ == entv.0@);
                                        assert(entv.0@ == pre[k as int].0@);
                                    } else {
                                        assert(out@[kk].0@ == pre[kk].0@);
                                    }
                                } else {
                                    assert(out@[k as int].0@ == tv);
                                }
                            }
                        }
                    } else {
                        let ghost pre = out@;
                        proof {
                            assert forall|j: int|
                                0 <= j < i implies (#[trigger] rv[j]).topic != Option::Some(
                                tv,
                            ) by {
                                if rv[j].topic == Option::Some(tv) {
                                    let kk = choose|kk: int|
                                        0 <= kk < pre.len() && (#[trigger] pre[kk].0@) == rv[j]
                                            .topic->Some_0;
                                    assert(pre[kk].0@ == tv);
                                }
                            }
                            lemma_topic_count_absent(rv.take(i as int), tv);
                        }
                        out.push((t, 1));
                        proof {
                            assert forall|q: int|
                                0 <= q < out@.len() implies (#[trigger] out@[q]).1 == topic_count(
                                rv.take(i + 1),
                                out@[q].0@,
                            ) && out@[q].1 >= 1 by {
                                if q < pre.len() {
                                    assert(out@[q] == pre[q]);
                                    assert(out@[q].0@ != tv);
                                } else {
                                    assert(out@[q].0@ == tv);
                                }
                            }
                            assert forall|j: int|
                                0 <= j < i + 1 && (#[trigger] rv[j]).topic is Some implies exists|
                                kk: int,
                            |
                                0 <= kk < out@.len() && (#[trigger] out@[kk].0@) == rv[j].topic
                                    ->Some_0 by {
                                if j < i {
                                    let kk = choose|kk: int|
                                        0 <= kk < pre.len() && (#[trigger] pre[kk].0@) == rv[j]
                                            .topic->Some_0;
                                    assert(out@[kk].0@ == pre[kk].0@);
                                } else {
                                    assert(out@[pre.len() as int].0@ == tv);
                                }
                            }
                        }
                    }
                },
                None => {
                },
            }
            i = i + 1;
        }
        proof {
            assert(rv.take(n as int) =~= rv);
        }
        out
    }

    /// The topics a plugin is recorded as subscribed to.
    #[verifier::loop_isolation(false)]
    pub fn get_plugin_subscriptions(&self, plugin_name: &str) -> (r: Vec<String>)
        ensures
            ({
                let k = assoc_find(self.subs_v(), plugin_name@);
                if k == -1 {
                    r@.len() == 0
                } else {
                    r@.map_values(|t: String| t@) == self.subs_v()[k].1
                }
            }),
    {
        let ghost s0 = self.subs_v();
        let n = self.plugin_subscriptions.len();
        let mut i: usize = 0;
        while i < n
            invariant
                i <= n,
                n == self.plugin_subscriptions.len(),
                forall|j: int| 0 <= j < i ==> s0[j].0 != plugin_name@,
                s0 == self.subs_v(),
            decreases n - i,
        {
            if str_eq(self.plugin_subscriptions[i].0.as_str(), plugin_name) {
                proof {
                    lemma_assoc_find_at(s0, plugin_name@, i as int);
                }
                let r = crate::message::dup_strings(&self.plugin_subscriptions[i].1);
                return r;
            }
            i = i + 1;
        }
        proof {
            lemma_assoc_find_none(s0, plugin_name@);
        }
        Vec::new()
    }
}

impl Default for DistributionCenter {
    /// The default routing table: empty, with the default fanout bound.
    fn default() -> (r: DistributionCenter)
        ensures
            r.wf(),
            r.receivers_v().len() == 0,
            r.direct_v().len() == 0,
            r.subs_v().len() == 0,
            r.channel_capacity == 1024,
    {
        DistributionCenter::new()
    }
}

/// The strings of `v` other than `needle`, in order.
fn filter_out(v: &Vec<String>, needle: &str) -> (r: Vec<String>)
    ensures
        r@.map_values(|t: String| t@) == v@.map_values(|t: String| t@).filter(
            |t: Seq<char>| t != needle@,
        ),
{
    let ghost pred = |t: Seq<char>| t != needle@;
    let ghost v0 = v@.map_values(|t: String| t@);
    let mut out: Vec<String> = Vec::new();
    let mut i: usize = 0;
    proof {
        assert(v0.take(0) =~= Seq::<Seq<char>>::empty());
        assert(out@.map_values(|t: String| t@) =~= Seq::<Seq<char>>::empty());
        assert(Seq::<Seq<char>>::empty().filter(pred) =~= Seq::<Seq<char>>::empty());
    }
    while i < v.len()
        invariant
            i <= v.len(),
            v0 == v@.map_values(|t: String| t@),
            pred == (|t: Seq<char>| t != needle@),
            out@.map_values(|t: String| t@) == v0.take(i as int).filter(pred),
        decreases v.len() - i,
    {
        proof {
            assert(v0.take(i + 1).drop_last() =~= v0.take(i as int));
            assert(v0.take(i + 1).last() == v0[i as int]);
            reveal(Seq::filter);
        }
        let keep = !str_eq(v[i].as_str(), needle);
        if keep {
            let ghost prev = out@.map_values(|t: String| t@);
            out.push(v[i].clone());
            proof {
                assert(out@.map_values(|t: String| t@) =~= prev.push(v0[i as int]));
            }
        }
        i = i + 1;
    }
    proof {
        assert(v0.take(v.len() as int) =~= v0);
    }
    out
}

} // verus!
