//! The message carrier value: typed topic, structured payload, priority,
//! source, optional recipient, timestamp, correlation id, metadata and an
//! optional user-context tag.

use vstd::prelude::*;
use crate::json::{JVal, JsonValue};
use crate::text::str_eq;
use crate::user::{UserContext, UserCtxVal, UserInfo, Permission};

verus! {

/// A topic identifier used as the routing key for broadcast delivery.
#[derive(Debug, Clone)]
pub struct MessageType(pub String);

impl MessageType {
    pub fn new(ty: &str) -> (r: MessageType)
        ensures
            r.0@ == ty@,
    {
        MessageType(ty.to_owned())
    }

    pub fn as_str(&self) -> (r: &str)
        ensures
            r@ == self.0@,
    {
        self.0.as_str()
    }
}

/// Message priority; the default is `Normal`.
#[derive(Debug, Clone, Copy, PartialEq, Eq, Structural)]
pub enum MessagePriority {
    Low,
    Normal,
    High,
    Critical,
}

impl MessagePriority {
    /// The wire byte of this priority.
    pub fn as_byte(self) -> (r: u8)
        ensures
            r == self.byte(),
    {
        match self {
            MessagePriority::Low => 0,
            MessagePriority::Normal => 1,
            MessagePriority::High => 2,
            MessagePriority::Critical => 3,
        }
    }

    pub open spec fn byte(self) -> u8 {
        match self {
            MessagePriority::Low => 0,
            MessagePriority::Normal => 1,
            MessagePriority::High => 2,
            MessagePriority::Critical => 3,
        }
    }

    /// The priority a wire byte decodes to; bytes outside `0..=3` decode
    /// to `Normal`.
    pub open spec fn spec_from_byte(b: u8) -> MessagePriority {
        if b == 0 {
            MessagePriority::Low
        } else if b == 1 {
            MessagePriority::Normal
        } else if b == 2 {
            MessagePriority::High
        } else if b == 3 {
            MessagePriority::Critical
        } else {
            MessagePriority::Normal
        }
    }

    pub fn from_byte(b: u8) -> (r: MessagePriority)
        ensures
            r == MessagePriority::spec_from_byte(b),
    {
        if b == 0 {
            MessagePriority::Low
        } else if b == 2 {
            MessagePriority::High
        } else if b == 3 {
            MessagePriority::Critical
        } else {
            MessagePriority::Normal
        }
    }
}

impl Default for MessagePriority {
    fn default() -> (r: MessagePriority)
        ensures
            r == MessagePriority::Normal,
    {
        MessagePriority::Normal
    }
}

/// Where a message came from.
#[derive(Debug, Clone)]
pub enum MessageSource {
    /// Ingested from an external transport, with the transport's tag.
    External(String),
    /// Sent by an in-process plugin, with the plugin's name.
    Plugin(String),
    /// Produced by the system itself.
    System,
}

/// Mathematical model of a `MessageSource`.
pub ghost enum SourceVal {
    External(Seq<char>),
    Plugin(Seq<char>),
    System,
}

impl MessageSource {
    pub open spec fn sval(self) -> SourceVal {
        match self {
            MessageSource::External(t) => SourceVal::External(t@),
            MessageSource::Plugin(n) => SourceVal::Plugin(n@),
            MessageSource::System => SourceVal::System,
        }
    }

    pub fn duplicate(&self) -> (r: MessageSource)
        ensures
            r.sval() == self.sval(),
    {
        match self {
            MessageSource::External(t) => MessageSource::External(t.clone()),
            MessageSource::Plugin(n) => MessageSource::Plugin(n.clone()),
            MessageSource::System => MessageSource::System,
        }
    }
}

/// The unified message format routed by the bus.
#[derive(Debug)]
pub struct Message {
    /// The topic; a message is broadcast to this topic unless `recipient`
    /// is set.
    pub message_type: MessageType,
    /// The structured payload.
    pub payload: JsonValue,
    pub priority: MessagePriority,
    pub source: MessageSource,
    /// The UID of the one plugin this message is directed to, if any;
    /// directed and broadcast delivery are mutually exclusive.
    pub recipient: Option<String>,
    /// Unix time in milliseconds, assigned at construction and preserved
    /// verbatim by the IPC receiver.
    pub timestamp: u64,
    /// Optional correlation id.
    pub message_id: Option<String>,
    /// String-to-string metadata.
    pub metadata: Vec<(String, String)>,
    /// Optional user identity tag.
    pub user_context: Option<UserContext>,
}

/// Mathematical model of a `Message`.
pub ghost struct MessageVal {
    pub topic: Seq<char>,
    pub payload: JVal,
    pub priority: MessagePriority,
    pub source: SourceVal,
    pub recipient: Option<Seq<char>>,
    pub timestamp: u64,
    pub message_id: Option<Seq<char>>,
    pub metadata: Seq<(Seq<char>, Seq<char>)>,
    pub user_context: Option<UserCtxVal>,
}

impl Message {
    pub open spec fn mval(self) -> MessageVal {
        MessageVal {
            topic: self.message_type.0@,
            payload: self.payload.jval(),
            priority: self.priority,
            source: self.source.sval(),
            recipient: match self.recipient {
                Option::Some(r) => Option::Some(r@),
                Option::None => Option::None,
            },
            timestamp: self.timestamp,
            message_id: match self.message_id {
                Option::Some(i) => Option::Some(i@),
                Option::None => Option::None,
            },
            metadata: self.metadata@.map_values(|kv: (String, String)| (kv.0@, kv.1@)),
            user_context: match self.user_context {
                Option::Some(u) => Option::Some(u.cval()),
                Option::None => Option::None,
            },
        }
    }

    /// A new broadcast message with `System` source, `Normal` priority and
    /// the current time.
    pub fn new(message_type: &str, payload: JsonValue) -> (r: Message)
        ensures
            r.mval().topic == message_type@,
            r.mval().payload == payload.jval(),
            r.mval().priority == MessagePriority::Normal,
            r.mval().source == SourceVal::System,
            r.mval().recipient is None,
            r.mval().message_id is None,
            r.mval().metadata.len() == 0,
            r.mval().user_context is None,
    {
        let r = Message {
            message_type: MessageType::new(message_type),
            payload,
            priority: MessagePriority::Normal,
            source: MessageSource::System,
            recipient: None,
            timestamp: now_millis(),
            message_id: None,
            metadata: Vec::new(),
            user_context: None,
        };
        proof {
            assert(r.mval().metadata =~= Seq::<(Seq<char>, Seq<char>)>::empty());
        }
        r
    }

    /// A new message ingested from an external transport.
    pub fn from_external(message_type: &str, payload: JsonValue, source: &str) -> (r: Message)
        ensures
            r.mval().topic == message_type@,
            r.mval().payload == payload.jval(),
            r.mval().priority == MessagePriority::Normal,
            r.mval().source == SourceVal::External(source@),
            r.mval().recipient is None,
            r.mval().message_id is None,
            r.mval().metadata.len() == 0,
            r.mval().user_context is None,
    {
        let mut r = Message::new(message_type, payload);
        r.source = MessageSource::External(source.to_owned());
        r
    }

    /// A new message sent on behalf of a plugin.
    pub fn from_plugin(message_type: &str, payload: JsonValue, plugin_name: &str) -> (r: Message)
        ensures
            r.mval().topic == message_type@,
            r.mval().payload == payload.jval(),
            r.mval().priority == MessagePriority::Normal,
            r.mval().source == SourceVal::Plugin(plugin_name@),
            r.mval().recipient is None,
            r.mval().message_id is None,
            r.mval().metadata.len() == 0,
            r.mval().user_context is None,
    {
        let mut r = Message::new(message_type, payload);
        r.source = MessageSource::Plugin(plugin_name.to_owned());
        r
    }

    /// A new directed message for the plugin with UID `recipient`.
    pub fn new_direct(recipient: &str, message_type: &str, payload: JsonValue) -> (r: Message)
        ensures
            r.mval().topic == message_type@,
            r.mval().payload == payload.jval(),
            r.mval().priority == MessagePriority::Normal,
            r.mval().source == SourceVal::System,
            r.mval().recipient == Option::Some(recipient@),
            r.mval().message_id is None,
            r.mval().metadata.len() == 0,
            r.mval().user_context is None,
    {
        let mut r = Message::new(message_type, payload);
        r.recipient = Some(recipient.to_owned());
        r
    }

    pub fn with_priority(self, priority: MessagePriority) -> (r: Message)
        ensures
            r.mval() == (MessageVal { priority, ..self.mval() }),
    {
        let mut s = self;
        s.priority = priority;
        s
    }

    pub fn with_id(self, id: &str) -> (r: Message)
        ensures
            r.mval() == (MessageVal { message_id: Option::Some(id@), ..self.mval() }),
    {
        let mut s = self;
        s.message_id = Some(id.to_owned());
        s
    }

    /// Adds a metadata entry; an existing entry under the same key is
    /// replaced.
    pub fn with_metadata(self, key: &str, value: &str) -> (r: Message)
        ensures
            r.mval() == (MessageVal {
                metadata: meta_insert(self.mval().metadata, key@, value@),
                ..self.mval()
            }),
    {
        let mut s = self;
        let n = s.metadata.len();
        let ghost m0 = s.mval().metadata;
        let mut i: usize = 0;
        while i < n
            invariant
                i <= n,
                n == s.metadata.len(),
                s.mval() == self.mval(),
                m0 == s.mval().metadata,
                forall|j: int| 0 <= j < i ==> m0[j].0 != key@,
            decreases n - i,
        {
            if str_eq(s.metadata[i].0.as_str(), key) {
                let entry = (key.to_owned(), value.to_owned());
                s.metadata.set(i, entry);
                proof {
                    lemma_meta_find(m0, key@, i as int);
                    assert(s.mval().metadata =~= m0.update(i as int, (key@, value@)));
                }
                return s;
            }
            i = i + 1;
        }
        s.metadata.push((key.to_owned(), value.to_owned()));
        proof {
            lemma_meta_find_none(m0, key@);
            assert(s.mval().metadata =~= m0.push((key@, value@)));
        }
        s
    }

    /// A deep copy with the same model.
    pub fn duplicate(&self) -> (r: Message)
        ensures
            r.mval() == self.mval(),
    {
        let r = Message {
            message_type: MessageType(self.message_type.0.clone()),
            payload: self.payload.duplicate(),
            priority: self.priority,
            source: self.source.duplicate(),
            recipient: match &self.recipient {
                Some(s) => Some(s.clone()),
                None => None,
            },
            timestamp: self.timestamp,
            message_id: match &self.message_id {
                Some(s) => Some(s.clone()),
                None => None,
            },
            metadata: dup_pairs(&self.metadata),
            user_context: match &self.user_context {
                Some(u) => Some(u.duplicate()),
                None => None,
            },
        };
        proof {
            assert(r.mval().metadata =~= self.mval().metadata);
        }
        r
    }
}

/// The index of `key` in `m`, or `-1` where it is absent.
pub open spec fn meta_find(m: Seq<(Seq<char>, Seq<char>)>, key: Seq<char>) -> int
    decreases m.len(),
{
    if m.len() == 0 {
        -1
    } else if m[0].0 == key {
        0
    } else {
        let r = meta_find(m.drop_first(), key);
        if r == -1 {
            -1
        } else {
            r + 1
        }
    }
}

/// Insert-or-replace of `key` in `m`.
pub open spec fn meta_insert(
    m: Seq<(Seq<char>, Seq<char>)>,
    key: Seq<char>,
    value: Seq<char>,
) -> Seq<(Seq<char>, Seq<char>)> {
    let i = meta_find(m, key);
    if i == -1 {
        m.push((key, value))
    } else {
        m.update(i, (key, value))
    }
}

pub proof fn lemma_meta_find(m: Seq<(Seq<char>, Seq<char>)>, key: Seq<char>, i: int)
    requires
        0 <= i < m.len(),
        m[i].0 == key,
        forall|j: int| 0 <= j < i ==> m[j].0 != key,
    ensures
        meta_find(m, key) == i,
    decreases m.len(),
{
    if i > 0 {
        lemma_meta_find(m.drop_first(), key, i - 1);
    }
}

pub proof fn lemma_meta_find_none(m: Seq<(Seq<char>, Seq<char>)>, key: Seq<char>)
    requires
        forall|j: int| 0 <= j < m.len() ==> m[j].0 != key,
    ensures
        meta_find(m, key) == -1,
    decreases m.len(),
{
    if m.len() > 0 {
        lemma_meta_find_none(m.drop_first(), key);
    }
}

/// A deep copy of a list of string pairs.
fn dup_pairs(v: &Vec<(String, String)>) -> (r: Vec<(String, String)>)
    ensures
        r@.map_values(|kv: (String, String)| (kv.0@, kv.1@)) == v@.map_values(
            |kv: (String, String)| (kv.0@, kv.1@),
        ),
{
    let mut out: Vec<(String, String)> = Vec::new();
    let mut i: usize = 0;
    while i < v.len()
        invariant
            i <= v.len(),
            out@.len() == i as int,
            forall|j: int| 0 <= j < i ==> out@[j].0@ == v@[j].0@ && out@[j].1@ == v@[j].1@,
        decreases v.len() - i,
    {
        let k = v[i].0.clone();
        let val = v[i].1.clone();
        out.push((k, val));
        i = i + 1;
    }
    proof {
        assert(out@.map_values(|kv: (String, String)| (kv.0@, kv.1@)) =~= v@.map_values(
            |kv: (String, String)| (kv.0@, kv.1@),
        ));
    }
    out
}

/// A deep copy of a list of strings.
pub(crate) fn dup_strings(v: &Vec<String>) -> (r: Vec<String>)
    ensures
        r@.map_values(|s: String| s@) == v@.map_values(|s: String| s@),
{
    let mut out: Vec<String> = Vec::new();
    let mut i: usize = 0;
    while i < v.len()
        invariant
            i <= v.len(),
            out@.len() == i as int,
            forall|j: int| 0 <= j < i ==> out@[j]@ == v@[j]@,
        decreases v.len() - i,
    {
        out.push(v[i].clone());
        i = i + 1;
    }
    proof {
        assert(out@.map_values(|s: String| s@) =~= v@.map_values(|s: String| s@));
    }
    out
}

impl UserContext {
    /// A deep copy with the same model.
    pub fn duplicate(&self) -> (r: UserContext)
        ensures
            r.cval() == self.cval(),
    {
        let user = UserInfo {
            id: crate::user::UserId(self.user.id.0.clone()),
            name: self.user.name.clone(),
            platform: crate::user::PlatformId(self.user.platform.0.clone()),
            platform_user_id: crate::user::PlatformUserId(self.user.platform_user_id.0.clone()),
        };
        let roles = dup_strings(&self.roles);
        let mut permissions: Vec<Permission> = Vec::new();
        let mut i: usize = 0;
        while i < self.permissions.len()
            invariant
                i <= self.permissions.len(),
                permissions@.len() == i as int,
                forall|j: int| 0 <= j < i ==> permissions@[j].0@ == self.permissions@[j].0@,
            decreases self.permissions.len() - i,
        {
            permissions.push(Permission(self.permissions[i].0.clone()));
            i = i + 1;
        }
        let r = UserContext { user, roles, permissions, expires_at: self.expires_at };
        proof {
            assert(r.cval().permissions =~= self.cval().permissions);
            assert(r.cval().roles =~= self.cval().roles);
        }
        r
    }
}

/// How a plugin reports its handling of one message.
#[derive(Debug, Clone)]
pub enum MessageHandleResult {
    /// The message was handled.
    Handled,
    /// The plugin was not interested.
    Ignored,
    /// Handling failed, with a reason.
    Failed(String),
}

/// Relies on `std::time::SystemTime::now` and
/// `SystemTime::duration_since(UNIX_EPOCH)` for the wall clock: the
/// current Unix time in milliseconds, `0` where the clock reads before
/// the epoch. Nothing is assumed of the value.
#[verifier::external_body]
pub(crate) fn now_millis() -> u64 {
    std::time::SystemTime::now()
        .duration_since(std::time::UNIX_EPOCH)
        .map(|d| d.as_millis() as u64)
        .unwrap_or(0)
}

} // verus!
