//! The message manager: owns the single bounded ingress queue and the
//! routing step that dispatches each ingress message through the
//! distribution center.

use vstd::prelude::*;
use crate::distribution_center::{assoc_find, observer_count, observes, lossy_push, DirVal,
    DistributionCenter, FanVal};
use crate::errors::BusError;
use crate::message::{Message, MessageVal};

verus! {

/// What routing one ingress message did.
#[derive(Debug, Clone, Copy, PartialEq, Eq, Structural)]
pub enum RouteOutcome {
    /// The message was broadcast; the count is the number of observing
    /// receivers at publish time.
    Broadcast(usize),
    /// The directed message was enqueued for its recipient.
    Direct,
    /// The directed message was dropped: no such recipient.
    UnknownRecipient,
    /// The directed message was dropped: the recipient's queue is full.
    Backpressure,
}

/// The routing-relevant bus state: the fanout buffers and the directed
/// queues.
pub ghost struct BusVal {
    pub receivers: Seq<FanVal>,
    pub direct: Seq<(Seq<char>, DirVal)>,
}

/// What routing one message does to the bus: a directed message goes to
/// its recipient's queue alone (dropped on an unknown UID or a full
/// queue), a broadcast goes lossily to every observing buffer.
pub open spec fn route_step(s: BusVal, m: MessageVal) -> BusVal {
    match m.recipient {
        Option::Some(uid) => {
            let k = assoc_find(s.direct, uid);
            if k == -1 {
                s
            } else if s.direct[k].1.queue.len() >= s.direct[k].1.capacity {
                s
            } else {
                BusVal {
                    direct: s.direct.update(
                        k,
                        (
                            s.direct[k].0,
                            DirVal {
                                queue: s.direct[k].1.queue.push(m),
                                capacity: s.direct[k].1.capacity,
                            },
                        ),
                    ),
                    ..s
                }
            }
        },
        Option::None => BusVal {
            receivers: Seq::new(
                s.receivers.len(),
                |i: int|
                    {
                        let b = s.receivers[i];
                        if observes(b, m.topic) {
                            FanVal { queue: lossy_push(b.queue, b.capacity, m), ..b }
                        } else {
                            b
                        }
                    },
            ),
            ..s
        },
    }
}

/// Routing a queue of messages, oldest first.
pub open spec fn route_all(s: BusVal, msgs: Seq<MessageVal>) -> BusVal
    decreases msgs.len(),
{
    if msgs.len() == 0 {
        s
    } else {
        route_all(route_step(s, msgs[0]), msgs.drop_first())
    }
}

/// Owns the distribution center and the ingress queue.  Plugins enqueue
/// through their `MessageContext`; the routing loop drains the ingress
/// in FIFO order and dispatches each message.
pub struct MessageManager {
    pub distribution_center: DistributionCenter,
    /// Pending messages, oldest first; bounded by `ingress_capacity`.
    pub ingress: Vec<Message>,
    pub ingress_capacity: usize,
    /// Set by `stop_message_loop`; a closed manager accepts no sends.
    pub closed: bool,
}

impl MessageManager {
    pub open spec fn ingress_v(self) -> Seq<MessageVal> {
        self.ingress@.map_values(|m: Message| m.mval())
    }

    pub open spec fn bus_v(self) -> BusVal {
        BusVal {
            receivers: self.distribution_center.receivers_v(),
            direct: self.distribution_center.direct_v(),
        }
    }

    pub open spec fn wf(self) -> bool {
        &&& self.distribution_center.wf()
        &&& self.ingress_capacity >= 1
        &&& self.ingress_v().len() <= self.ingress_capacity
    }

    /// A manager with an empty routing table and an ingress bound of 1024.
    pub fn new() -> (r: MessageManager)
        ensures
            r.wf(),
            r.distribution_center.receivers_v().len() == 0,
            r.distribution_center.direct_v().len() == 0,
            r.distribution_center.subs_v().len() == 0,
            r.ingress_v().len() == 0,
            r.ingress_capacity == 1024,
            !r.closed,
    {
        let r = MessageManager {
            distribution_center: DistributionCenter::new(),
            ingress: Vec::new(),
            ingress_capacity: 1024,
            closed: false,
        };
        proof {
            assert(r.ingress_v() =~= Seq::<MessageVal>::empty());
        }
        r
    }

    /// Puts one message on the ingress.  Fails with `Closed` after
    /// `stop_message_loop`, with `Backpressure` when the ingress is full;
    /// otherwise the message is appended in FIFO position.
    pub fn enqueue(&mut self, message: Message) -> (r: Result<(), BusError>)
        requires
            old(self).wf(),
        ensures
            final(self).wf(),
            final(self).distribution_center == old(self).distribution_center,
            final(self).ingress_capacity == old(self).ingress_capacity,
            final(self).closed == old(self).closed,
            old(self).closed ==> r == Result::<(), BusError>::Err(BusError::Closed) && final(self).ingress_v() == old(self).ingress_v(),
            !old(self).closed && old(self).ingress_v().len() >= old(self).ingress_capacity ==> r
                == Result::<(), BusError>::Err(BusError::Backpressure) && final(self).ingress_v()
                == old(self).ingress_v(),
            !old(self).closed && old(self).ingress_v().len() < old(self).ingress_capacity ==> r
                == Result::<(), BusError>::Ok(()) && final(self).ingress_v() =~= old(self).ingress_v().push(message.mval()),
    {
        if self.closed {
            return Err(BusError::Closed);
        }
        if self.ingress.len() >= self.ingress_capacity {
            return Err(BusError::Backpressure);
        }
        let ghost mv = message.mval();
        self.ingress.push(message);
        proof {
            assert(self.ingress_v() =~= old(self).ingress_v().push(mv));
        }
        Ok(())
    }

    /// Routes the oldest ingress message, if any.  A directed message
    /// goes to its recipient's queue alone and is never seen by a fanout
    /// or wiretap; a broadcast goes to its topic's subscribers and every
    /// wiretap.  Errors of directed delivery are reported in the outcome
    /// and the message is dropped.
    pub fn process_next(&mut self) -> (r: Option<RouteOutcome>)
        requires
            old(self).wf(),
        ensures
            final(self).wf(),
            final(self).ingress_capacity == old(self).ingress_capacity,
            final(self).closed == old(self).closed,
            final(self).distribution_center.subs_v() == old(self).distribution_center.subs_v(),
            final(self).distribution_center.channel_capacity == old(self).distribution_center.channel_capacity,
            old(self).ingress_v().len() == 0 ==> r is None && final(self).ingress_v() == old(self).ingress_v() && final(self).distribution_center == old(self).distribution_center,
            old(self).ingress_v().len() > 0 ==> final(self).ingress_v() =~= old(self).ingress_v().drop_first() && ({
                let m = old(self).ingress_v()[0];
                let dc0 = old(self).distribution_center;
                let dc1 = final(self).distribution_center;
                match m.recipient {
                    Option::Some(uid) => {
                        let k = assoc_find(dc0.direct_v(), uid);
                        &&& dc1.receivers_v() == dc0.receivers_v()
                        &&& k == -1 ==> r == Option::Some(RouteOutcome::UnknownRecipient)
                            && dc1.direct_v() == dc0.direct_v()
                        &&& k != -1 && dc0.direct_v()[k].1.queue.len() >= dc0.direct_v()[k].1.capacity
                            ==> r == Option::Some(RouteOutcome::Backpressure) && dc1.direct_v()
                            == dc0.direct_v()
                        &&& k != -1 && dc0.direct_v()[k].1.queue.len() < dc0.direct_v()[k].1.capacity
                            ==> r == Option::Some(RouteOutcome::Direct) && dc1.direct_v() =~= dc0
                            .direct_v().update(
                            k,
                            (
                                dc0.direct_v()[k].0,
                                DirVal {
                                    queue: dc0.direct_v()[k].1.queue.push(m),
                                    capacity: dc0.direct_v()[k].1.capacity,
                                },
                            ),
                        )
                    },
                    Option::None => {
                        &&& dc1.direct_v() == dc0.direct_v()
                        &&& r == Option::Some(
                            RouteOutcome::Broadcast(
                                observer_count(dc0.receivers_v(), m.topic) as usize,
                            ),
                        )
                        &&& dc1.receivers_v().len() == dc0.receivers_v().len()
                        &&& forall|i: int|
                            0 <= i < dc0.receivers_v().len()
                                ==> #[trigger] dc1.receivers_v()[i] == ({
                                let b = dc0.receivers_v()[i];
                                if observes(b, m.topic) {
                                    FanVal {
                                        queue: lossy_push(b.queue, b.capacity, m),
                                        ..b
                                    }
                                } else {
                                    b
                                }
                            })
                    },
                }
            }),
    {
        if self.ingress.len() == 0 {
            return None;
        }
        let message = self.ingress.remove(0);
        proof {
            assert(self.ingress_v() =~= old(self).ingress_v().drop_first());
            assert(message.mval() == old(self).ingress_v()[0]);
        }
        let has_recipient = message.recipient.is_some();
        if has_recipient {
            let uid = match &message.recipient {
                Some(u) => u.clone(),
                None => String::new(),
            };
            proof {
                assert(uid@ == message.mval().recipient->Some_0);
            }
            match self.distribution_center.send_direct(uid.as_str(), message) {
                Ok(()) => Some(RouteOutcome::Direct),
                Err(BusError::UnknownRecipient) => Some(RouteOutcome::UnknownRecipient),
                Err(_) => Some(RouteOutcome::Backpressure),
            }
        } else {
            let count = self.distribution_center.distribute(&message);
            Some(RouteOutcome::Broadcast(count))
        }
    }

    /// Drains the ingress, routing every pending message in FIFO order:
    /// the final bus state is the fold of the single routing step over
    /// the pending messages, oldest first.  Returns how many messages
    /// were routed.
    #[verifier::loop_isolation(false)]
    pub fn start_message_loop(&mut self) -> (n: usize)
        requires
            old(self).wf(),
        ensures
            final(self).wf(),
            final(self).ingress_v().len() == 0,
            final(self).closed == old(self).closed,
            final(self).ingress_capacity == old(self).ingress_capacity,
            final(self).distribution_center.subs_v() == old(self).distribution_center.subs_v(),
            final(self).distribution_center.channel_capacity == old(
                self,
            ).distribution_center.channel_capacity,
            final(self).bus_v() == route_all(old(self).bus_v(), old(self).ingress_v()),
            n == old(self).ingress_v().len(),
    {
        let mut n: usize = 0;
        while self.ingress.len() > 0
            invariant
                self.wf(),
                self.closed == old(self).closed,
                self.ingress_capacity == old(self).ingress_capacity,
                self.distribution_center.subs_v() == old(self).distribution_center.subs_v(),
                self.distribution_center.channel_capacity == old(
                    self,
                ).distribution_center.channel_capacity,
                n + self.ingress_v().len() == old(self).ingress_v().len(),
                route_all(self.bus_v(), self.ingress_v()) == route_all(
                    old(self).bus_v(),
                    old(self).ingress_v(),
                ),
            decreases self.ingress.len(),
        {
            let ghost pre_bus = self.bus_v();
            let ghost pre_ingress = self.ingress_v();
            let r = self.process_next();
            proof {
                let m = pre_ingress[0];
                match m.recipient {
                    Option::Some(uid) => {
                        let k = assoc_find(pre_bus.direct, uid);
                        if k == -1 || pre_bus.direct[k].1.queue.len()
                            >= pre_bus.direct[k].1.capacity {
                            assert(self.bus_v() =~~= route_step(pre_bus, m));
                        } else {
                            assert(self.bus_v().direct =~~= route_step(pre_bus, m).direct);
                            assert(self.bus_v() =~~= route_step(pre_bus, m));
                        }
                    },
                    Option::None => {
                        assert(self.bus_v().receivers =~~= route_step(pre_bus, m).receivers);
                        assert(self.bus_v() =~~= route_step(pre_bus, m));
                    },
                }
                assert(route_all(pre_bus, pre_ingress) == route_all(
                    route_step(pre_bus, m),
                    pre_ingress.drop_first(),
                ));
                assert(self.ingress_v() =~= pre_ingress.drop_first());
            }
            n = n + 1;
        }
        n
    }

    /// Stops the routing loop: the manager accepts no further sends and
    /// is not restartable.
    pub fn stop_message_loop(&mut self)
        requires
            old(self).wf(),
        ensures
            final(self).wf(),
            final(self).closed,
            final(self).distribution_center == old(self).distribution_center,
            final(self).ingress_v() == old(self).ingress_v(),
            final(self).ingress_capacity == old(self).ingress_capacity,
    {
        self.closed = true;
    }

    /// The routing table, for wiring subscriptions.
    pub fn dc_mut(&mut self) -> (r: &mut DistributionCenter)
        ensures
            *r == old(self).distribution_center,
            *final(self) == (MessageManager { distribution_center: *final(r), ..*old(self) }),
    {
        &mut self.distribution_center
    }
}

impl Default for MessageManager {
    /// The default manager: an empty routing table and an open ingress.
    fn default() -> (r: MessageManager)
        ensures
            r.wf(),
            r.ingress_v().len() == 0,
            !r.closed,
    {
        MessageManager::new()
    }
}

} // verus!
