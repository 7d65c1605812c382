//! The IPC bridge plugin: it wiretaps every broadcast, encodes each one
//! into a fixed-size frame (sealing the body in the hybrid envelope when
//! a public key is configured), and turns received frames back into bus
//! messages.  The loop guards on both directions keep two peered bridges
//! from reflecting traffic forever.
//!
//! The shared-memory transport itself runs in dedicated threads outside
//! this library; they exchange plain `AmadeusMessageData` frames with
//! the verified codec here.

use vstd::prelude::*;
use crate::crypto::{envelope_seals, seal_envelope, EncryptedEnvelope};
use crate::errors::BridgeError;
use crate::iceoryx2_types::AmadeusMessageData;
use crate::json::{jbytes, jval_fields, lemma_jval_fields_index, JVal, JsonValue};
use crate::message::{Message, MessagePriority, MessageSource, MessageVal, SourceVal};
use crate::message_context::MessageContext;
use crate::message_json::json_of_message;
use crate::message_manager::MessageManager;
use crate::plugin::{Plugin, PluginMetadata};
use crate::text::str_eq;
use vstd::string::StringSliceAdditionalSpecFns;

verus! {

/// Whether the wiretap forwarder re-publishes a message: everything but
/// what was ingested from the local transport.
pub open spec fn forwards(s: SourceVal) -> bool {
    !(s matches SourceVal::External(t) && t == "iceoryx2"@)
}

/// The forwarder's loop guard decision.
pub fn should_forward(message: &Message) -> (r: bool)
    ensures
        r == forwards(message.mval().source),
{
    match &message.source {
        MessageSource::External(t) => !str_eq(t.as_str(), "iceoryx2"),
        _ => true,
    }
}

/// The guard on the other side: a message that was re-published by a
/// local bridge is never re-forwarded by this one.
pub proof fn lemma_loop_guard(m: MessageVal)
    requires
        m.source == SourceVal::External("iceoryx2"@),
    ensures
        !forwards(m.source),
{
}

/// The JSON object of an encrypted envelope.
pub open spec fn envelope_jval(sk: Seq<char>, iv: Seq<char>, sp: Seq<char>) -> JVal {
    JVal::Obj(
        seq![
            ("secure_key"@, JVal::Str(sk)),
            ("iv"@, JVal::Str(iv)),
            ("secure_payload"@, JVal::Str(sp)),
        ],
    )
}

/// What the frame body of a forwarded message holds under a configured
/// public key: the JSON of an envelope sealing the message's canonical
/// JSON text, with the witness parts named.
pub open spec fn bridged_sealed(
    body: Seq<u8>,
    m: MessageVal,
    p: Seq<char>,
    sk: Seq<char>,
    iv: Seq<char>,
    sp: Seq<char>,
) -> bool {
    &&& envelope_seals(sk, iv, sp, p, jbytes(json_of_message(m)))
    &&& body == jbytes(envelope_jval(sk, iv, sp))
}

/// Builds the envelope's JSON value.
fn envelope_to_value(env: EncryptedEnvelope) -> (r: JsonValue)
    ensures
        r.jval() == envelope_jval(env.secure_key@, env.iv@, env.secure_payload@),
{
    let mut fields: Vec<(String, JsonValue)> = Vec::new();
    let ghost skv = env.secure_key@;
    let ghost ivv = env.iv@;
    let ghost spv = env.secure_payload@;
    fields.push(("secure_key".to_owned(), JsonValue::Str(env.secure_key)));
    fields.push(("iv".to_owned(), JsonValue::Str(env.iv)));
    fields.push(("secure_payload".to_owned(), JsonValue::Str(env.secure_payload)));
    proof {
        lemma_jval_fields_index(fields@);
        assert(jval_fields(fields@) =~= seq![
            ("secure_key"@, JVal::Str(skv)),
            ("iv"@, JVal::Str(ivv)),
            ("secure_payload"@, JVal::Str(spv)),
        ]);
    }
    JsonValue::Obj(fields)
}

/// Encodes one wiretapped broadcast into a frame for the transport, or
/// skips it.  A message the local transport injected is skipped (the
/// loop guard); otherwise the body is the canonical JSON of the message,
/// sealed in the hybrid envelope when a public key is configured, and
/// the topic, priority byte and timestamp ride in the fixed frame
/// fields.  Oversize frames are rejected, never truncated.
pub fn forward_broadcast(message: &Message, public_key_pem: Option<&String>) -> (r: Result<
    Option<AmadeusMessageData>,
    BridgeError,
>)
    ensures
        !forwards(message.mval().source) ==> r == Result::<
            Option<AmadeusMessageData>,
            BridgeError,
        >::Ok(Option::None),
        r matches Ok(Some(f)) ==> {
            &&& forwards(message.mval().source)
            &&& f.wf()
            &&& f.topic_bytes() == vstd::utf8::encode_utf8(message.mval().topic)
            &&& f.priority == message.mval().priority.byte()
            &&& f.timestamp == message.mval().timestamp
            &&& (public_key_pem is None ==> f.body_bytes() == jbytes(
                json_of_message(message.mval()),
            ))
            &&& (public_key_pem matches Some(pp) ==> exists|
                sk: Seq<char>,
                iv: Seq<char>,
                sp: Seq<char>,
            | #[trigger] bridged_sealed(f.body_bytes(), message.mval(), pp@, sk, iv, sp))
        },
        forwards(message.mval().source) && !crate::message_json::representable(message.mval())
            ==> r == Result::<Option<AmadeusMessageData>, BridgeError>::Err(
            BridgeError::Json(crate::errors::JsonError::Shape),
        ),
        forwards(message.mval().source) && crate::message_json::representable(message.mval())
            && public_key_pem is None ==> ({
            let fits = vstd::utf8::encode_utf8(message.mval().topic).len()
                <= crate::iceoryx2_types::TOPIC_CAPACITY && jbytes(
                json_of_message(message.mval()),
            ).len() <= crate::iceoryx2_types::BODY_CAPACITY;
            &&& fits == (r is Ok)
            &&& (!fits ==> r == Result::<Option<AmadeusMessageData>, BridgeError>::Err(
                BridgeError::Frame(crate::errors::FrameError::PayloadTooLarge),
            ))
            &&& (r matches Ok(o) ==> o is Some)
        }),
{
    if !should_forward(message) {
        return Ok(None);
    }
    let body = match message.to_json() {
        Ok(s) => s,
        Err(e) => {
            return Err(BridgeError::Json(e));
        },
    };
    let ghost mut skv: Seq<char> = Seq::empty();
    let ghost mut ivv: Seq<char> = Seq::empty();
    let ghost mut spv: Seq<char> = Seq::empty();
    let wire_body: String = match public_key_pem {
        Some(pem) => {
            let env = match seal_envelope(body.as_str().as_bytes(), pem.as_str()) {
                Ok(env) => env,
                Err(e) => {
                    return Err(BridgeError::Crypto(e));
                },
            };
            proof {
                skv = env.secure_key@;
                ivv = env.iv@;
                spv = env.secure_payload@;
            }
            let value = envelope_to_value(env);
            let bytes = value.write_json();
            proof {
                assert(envelope_seals(skv, ivv, spv, pem@, jbytes(json_of_message(
                    message.mval(),
                ))));
            }
            match crate::text::bytes_to_string(bytes.as_slice()) {
                Some(s) => s,
                None => {
                    return Err(BridgeError::Json(crate::errors::JsonError::Syntax));
                },
            }
        },
        None => body,
    };
    let frame = match AmadeusMessageData::from_json(
        message.message_type.as_str(),
        wire_body.as_str(),
        message.priority.as_byte(),
        message.timestamp,
    ) {
        Ok(f) => f,
        Err(e) => {
            return Err(BridgeError::Frame(e));
        },
    };
    proof {
        if public_key_pem is Some {
            let p = public_key_pem->Some_0@;
            assert(envelope_seals(skv, ivv, spv, p, jbytes(json_of_message(message.mval()))));
            assert(frame.body_bytes() == jbytes(envelope_jval(skv, ivv, spv)));
            assert(bridged_sealed(frame.body_bytes(), message.mval(), p, skv, ivv, spv));
            assert(exists|sk: Seq<char>, iv: Seq<char>, sp: Seq<char>|
                #[trigger] bridged_sealed(frame.body_bytes(), message.mval(), p, sk, iv, sp));
        }
    }
    Ok(Some(frame))
}

/// The message a decodable frame injects: a foreign external tag is
/// preserved, any other source becomes `External("iceoryx2")`, and the
/// frame's timestamp and priority byte replace the carried ones.
pub open spec fn ingested(mv: MessageVal, priority: u8, timestamp: u64) -> MessageVal {
    MessageVal {
        source: match mv.source {
            SourceVal::External(t) => SourceVal::External(t),
            _ => SourceVal::External("iceoryx2"@),
        },
        timestamp,
        priority: MessagePriority::spec_from_byte(priority),
        ..mv
    }
}

/// Decodes one received frame into a bus message, or drops it.  A frame
/// whose message came from a bridge (`Plugin("Iceoryx2Dispatcher")`) is
/// dropped; an external source tag is preserved across the hop, any
/// other source is rewritten to `External("iceoryx2")`.  The frame's
/// timestamp is preserved verbatim, and its priority byte decodes with
/// out-of-range bytes falling back to `Normal`.
pub fn ingest_frame(frame: &AmadeusMessageData) -> (r: Result<Option<Message>, BridgeError>)
    requires
        frame.wf(),
    ensures
        r matches Ok(Some(m)) ==> {
            &&& m.mval().source matches SourceVal::External(t)
            &&& m.mval().timestamp == frame.timestamp
            &&& m.mval().priority == MessagePriority::spec_from_byte(frame.priority)
        },
        forall|mv: MessageVal|
            frame.body_bytes() == jbytes(json_of_message(mv))
                && #[trigger] crate::json::ints_in_range(json_of_message(mv)) ==> (if mv.source
                == SourceVal::Plugin("Iceoryx2Dispatcher"@) {
                r == Result::<Option<Message>, BridgeError>::Ok(Option::None)
            } else {
                r matches Ok(Some(m)) && m.mval() == ingested(mv, frame.priority, frame.timestamp)
            }),
{
    proof {
        assert forall|mv: MessageVal|
            frame.body_bytes() == jbytes(json_of_message(mv))
                && #[trigger] crate::json::ints_in_range(json_of_message(mv)) implies (
        frame.body_bytes().len() >= 2 && vstd::utf8::valid_utf8(frame.body_bytes())) by {
            crate::json::lemma_jbytes_valid(json_of_message(mv));
        }
    }
    let body = match frame.json_str() {
        Ok(s) => s,
        Err(e) => {
            proof {
                assert forall|mv: MessageVal|
                    frame.body_bytes() == jbytes(json_of_message(mv))
                        && #[trigger] crate::json::ints_in_range(json_of_message(mv)) implies
                    false by {}
            }
            return Err(BridgeError::Frame(e));
        },
    };
    let message0 = match Message::from_json(body.as_str()) {
        Ok(m) => m,
        Err(e) => {
            proof {
                assert forall|mv: MessageVal|
                    frame.body_bytes() == jbytes(json_of_message(mv))
                        && #[trigger] crate::json::ints_in_range(json_of_message(mv)) implies
                    false by {
                    assert(vstd::utf8::encode_utf8(body@) == jbytes(json_of_message(mv)));
                }
            }
            return Err(BridgeError::Json(e));
        },
    };
    proof {
        assert forall|mv: MessageVal|
            frame.body_bytes() == jbytes(json_of_message(mv))
                && #[trigger] crate::json::ints_in_range(json_of_message(mv)) implies message0
            .mval() == mv by {
            assert(vstd::utf8::encode_utf8(body@) == jbytes(json_of_message(mv)));
        }
    }
    let mut message = message0;
    let drop_it = match &message.source {
        MessageSource::Plugin(name) => str_eq(name.as_str(), "Iceoryx2Dispatcher"),
        _ => false,
    };
    if drop_it {
        return Ok(None);
    }
    let keep_tag = match &message.source {
        MessageSource::External(_) => true,
        _ => false,
    };
    if !keep_tag {
        message.source = MessageSource::External("iceoryx2".to_owned());
    }
    message.timestamp = frame.timestamp;
    message.priority = MessagePriority::from_byte(frame.priority);
    Ok(Some(message))
}

/// The bridge plugin.  Its transport threads live outside the library;
/// this keeps the configuration, the wiretap receiver index, and the
/// running flag that the threads poll.
pub struct Iceoryx2DispatcherPlugin {
    pub metadata: PluginMetadata,
    pub node_name: String,
    pub service_name: String,
    pub running: bool,
    /// The wiretap receiver registered by `setup_messaging`.
    pub wiretap_rid: Option<usize>,
}

impl Iceoryx2DispatcherPlugin {
    /// A bridge on the default transport service.
    pub fn new(node_name: &str) -> (r: Iceoryx2DispatcherPlugin)
        ensures
            r.metadata.pmval().name == "Iceoryx2Dispatcher"@,
            r.metadata.pmval().properties =~= seq![("role"@, "dispatcher"@)],
            r.node_name@ == node_name@,
            r.service_name@ == "Amadeus/Message/Service"@,
            !r.running,
            r.wiretap_rid is None,
    {
        Iceoryx2DispatcherPlugin::with_service(node_name, "Amadeus/Message/Service")
    }

    /// A bridge on a chosen transport service.
    pub fn with_service(node_name: &str, service_name: &str) -> (r: Iceoryx2DispatcherPlugin)
        ensures
            r.metadata.pmval().name == "Iceoryx2Dispatcher"@,
            r.metadata.pmval().properties =~= seq![("role"@, "dispatcher"@)],
            r.node_name@ == node_name@,
            r.service_name@ == service_name@,
            !r.running,
            r.wiretap_rid is None,
    {
        let metadata = PluginMetadata::new(
            "Iceoryx2Dispatcher",
            "Core dispatcher plugin bridging the bus over shared memory",
            "0.1.0",
        ).with_property("role", "dispatcher");
        Iceoryx2DispatcherPlugin {
            metadata,
            node_name: node_name.to_owned(),
            service_name: service_name.to_owned(),
            running: false,
            wiretap_rid: None,
        }
    }

    /// Configures an RSA public key (PEM) for egress encryption, stored
    /// in the plugin's properties.
    pub fn with_public_key(self, public_key_pem: &str) -> (r: Iceoryx2DispatcherPlugin)
        ensures
            r.metadata.pmval().name == self.metadata.pmval().name,
            r.metadata.pmval().properties == crate::message::meta_insert(
                self.metadata.pmval().properties,
                "external_public_key"@,
                public_key_pem@,
            ),
            r.node_name@ == self.node_name@,
            r.service_name@ == self.service_name@,
            r.running == self.running,
    {
        let mut s = self;
        s.metadata = s.metadata.with_property("external_public_key", public_key_pem);
        s
    }
}

impl Plugin for Iceoryx2DispatcherPlugin {
    fn metadata(&self) -> &PluginMetadata {
        &self.metadata
    }

    /// Wires the bridge into the bus: a wiretap over every broadcast,
    /// and the running flag for the transport threads.
    fn setup_messaging(&mut self, manager: &mut MessageManager) -> (r: Result<
        Option<MessageContext>,
        crate::errors::PluginError,
    >) {
        let ctx = MessageContext::new(self.metadata.name.as_str(), self.metadata.uid.as_str());
        let rid = ctx.subscribe_all(manager);
        self.wiretap_rid = Some(rid);
        self.running = true;
        Ok(Some(ctx))
    }

    /// Clears the running flag; the transport threads exit within one
    /// poll interval each.
    fn stop(&mut self) -> (r: Result<(), crate::errors::PluginError>) {
        self.running = false;
        Ok(())
    }
}

} // verus!
