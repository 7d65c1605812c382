//! The per-plugin handle to the bus: subscribe to topics or to every
//! broadcast, register a directed queue under the plugin's UID, and send.
//!
//! `send` stamps the message's source with the sending plugin's name
//! unconditionally: the bus trusts only its own stamp for in-process
//! messages.

use vstd::prelude::*;
use crate::distribution_center::{assoc_find, subs_add, DirVal, FanVal};
use crate::errors::BusError;
use crate::message::{Message, MessageSource, MessageVal, SourceVal};
use crate::message_manager::MessageManager;

verus! {

/// The capacity of the directed queue registered by
/// `enable_direct_messaging`.
pub const DIRECT_QUEUE_CAPACITY: usize = 100;

/// A narrow, named handle to the bus for one plugin instance.
#[derive(Debug)]
pub struct MessageContext {
    pub plugin_name: String,
    pub plugin_uid: String,
}

impl MessageContext {
    pub fn new(plugin_name: &str, plugin_uid: &str) -> (r: MessageContext)
        ensures
            r.plugin_name@ == plugin_name@,
            r.plugin_uid@ == plugin_uid@,
    {
        MessageContext {
            plugin_name: plugin_name.to_owned(),
            plugin_uid: plugin_uid.to_owned(),
        }
    }

    pub fn plugin_name(&self) -> (r: &str)
        ensures
            r@ == self.plugin_name@,
    {
        self.plugin_name.as_str()
    }

    pub fn plugin_uid(&self) -> (r: &str)
        ensures
            r@ == self.plugin_uid@,
    {
        self.plugin_uid.as_str()
    }

    /// A copy of this handle.
    pub fn duplicate(&self) -> (r: MessageContext)
        ensures
            r.plugin_name@ == self.plugin_name@,
            r.plugin_uid@ == self.plugin_uid@,
    {
        MessageContext {
            plugin_name: self.plugin_name.clone(),
            plugin_uid: self.plugin_uid.clone(),
        }
    }

    /// Subscribes this plugin to a topic; the returned receiver index
    /// observes every later broadcast on that topic.
    pub fn subscribe(&self, manager: &mut MessageManager, message_type: &str) -> (rid: usize)
        requires
            old(manager).wf(),
        ensures
            final(manager).wf(),
            rid == old(manager).distribution_center.receivers_v().len(),
            final(manager).distribution_center.receivers_v() =~= old(manager).distribution_center.receivers_v().push(
                FanVal {
                    topic: Option::Some(message_type@),
                    plugin: self.plugin_name@,
                    queue: Seq::empty(),
                    capacity: old(manager).distribution_center.channel_capacity as int,
                },
            ),
            final(manager).distribution_center.direct_v() == old(manager).distribution_center.direct_v(),
            final(manager).distribution_center.subs_v() =~= subs_add(
                old(manager).distribution_center.subs_v(),
                self.plugin_name@,
                message_type@,
            ),
            final(manager).ingress_v() == old(manager).ingress_v(),
            final(manager).closed == old(manager).closed,
    {
        manager.distribution_center.subscribe(message_type, self.plugin_name.as_str())
    }

    /// Subscribes this plugin to every broadcast (a wiretap).
    pub fn subscribe_all(&self, manager: &mut MessageManager) -> (rid: usize)
        requires
            old(manager).wf(),
        ensures
            final(manager).wf(),
            rid == old(manager).distribution_center.receivers_v().len(),
            final(manager).distribution_center.receivers_v() =~= old(manager).distribution_center.receivers_v().push(
                FanVal {
                    topic: Option::None,
                    plugin: self.plugin_name@,
                    queue: Seq::empty(),
                    capacity: old(manager).distribution_center.channel_capacity as int,
                },
            ),
            final(manager).distribution_center.direct_v() == old(manager).distribution_center.direct_v(),
            final(manager).distribution_center.subs_v() == old(manager).distribution_center.subs_v(),
            final(manager).ingress_v() == old(manager).ingress_v(),
            final(manager).closed == old(manager).closed,
    {
        manager.distribution_center.subscribe_all(self.plugin_name.as_str())
    }

    /// Registers (or replaces) this plugin's directed queue, keyed by its
    /// UID, with capacity `DIRECT_QUEUE_CAPACITY`.  Directed messages are
    /// then drained with `recv_direct` under the same UID.
    pub fn enable_direct_messaging(&self, manager: &mut MessageManager)
        requires
            old(manager).wf(),
        ensures
            final(manager).wf(),
            final(manager).distribution_center.receivers_v() == old(manager).distribution_center.receivers_v(),
            final(manager).distribution_center.subs_v() == old(manager).distribution_center.subs_v(),
            final(manager).ingress_v() == old(manager).ingress_v(),
            final(manager).closed == old(manager).closed,
            ({
                let k = assoc_find(
                    old(manager).distribution_center.direct_v(),
                    self.plugin_uid@,
                );
                let entry = (
                    self.plugin_uid@,
                    DirVal {
                        queue: Seq::empty(),
                        capacity: DIRECT_QUEUE_CAPACITY as int,
                    },
                );
                if k == -1 {
                    final(manager).distribution_center.direct_v() =~= old(manager).distribution_center.direct_v().push(entry)
                } else {
                    final(manager).distribution_center.direct_v() =~= old(manager).distribution_center.direct_v().update(k, entry)
                }
            }),
    {
        manager.distribution_center.register_direct_channel(
            self.plugin_uid.as_str(),
            DIRECT_QUEUE_CAPACITY,
        );
    }

    /// Sends a message onto the bus.  The source is overwritten with
    /// `Plugin(self.plugin_name)` before the message reaches the ingress;
    /// the caller observes only `Closed` or `Backpressure` as errors.
    pub fn send(&self, manager: &mut MessageManager, message: Message) -> (r: Result<
        (),
        BusError,
    >)
        requires
            old(manager).wf(),
        ensures
            final(manager).wf(),
            final(manager).distribution_center == old(manager).distribution_center,
            final(manager).closed == old(manager).closed,
            old(manager).closed ==> r == Result::<(), BusError>::Err(BusError::Closed) && final(manager).ingress_v() == old(manager).ingress_v(),
            !old(manager).closed && old(manager).ingress_v().len() >= old(manager).ingress_capacity ==> r == Result::<(), BusError>::Err(BusError::Backpressure)
                && final(manager).ingress_v() == old(manager).ingress_v(),
            !old(manager).closed && old(manager).ingress_v().len() < old(manager).ingress_capacity
                ==> r == Result::<(), BusError>::Ok(()) && final(manager).ingress_v() =~= old(manager).ingress_v().push(
                MessageVal { source: SourceVal::Plugin(self.plugin_name@), ..message.mval() },
            ),
    {
        let mut message = message;
        message.source = MessageSource::Plugin(self.plugin_name.clone());
        manager.enqueue(message)
    }
}

} // verus!
