//! An in-process plugin host organised around a typed publish/subscribe
//! message bus with broadcast (topic) and point-to-point (directed)
//! delivery, a plugin lifecycle registry that wires plugins into that bus,
//! and an IPC bridge that frames messages for a shared-memory transport and
//! can seal the payload in a hybrid AES-GCM/RSA envelope.

pub mod crypto;
pub mod dispatcher;
pub mod distribution_center;
pub mod errors;
pub mod iceoryx2_types;
pub mod json;
pub mod message;
pub mod message_context;
pub mod message_json;
pub mod message_manager;
pub mod plugin;
pub mod text;
pub mod user;

pub use distribution_center::DistributionCenter;
pub use errors::{BridgeError, BusError, CryptoError, FrameError, JsonError, PluginError};
pub use json::{JVal, JsonValue};
pub use message::{Message, MessageHandleResult, MessagePriority, MessageSource, MessageType};
pub use message_context::MessageContext;
pub use message_manager::MessageManager;
pub use plugin::{Plugin, PluginMetadata, PluginRegistry};
