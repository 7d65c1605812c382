//! Error kinds surfaced by the bus, the frame codec, the JSON codec, the
//! encryption envelope and the plugin lifecycle.

use vstd::prelude::*;

verus! {

/// Errors observed by callers of bus operations.
#[derive(Debug, Clone, Copy, PartialEq, Eq, Structural)]
pub enum BusError {
    /// An ingress send after the message loop was stopped.
    Closed,
    /// A directed send to a UID with no registered queue.
    UnknownRecipient,
    /// A bounded queue is full; the caller may retry or drop.
    Backpressure,
}

/// Errors of the fixed-size IPC frame codec.
#[derive(Debug, Clone, Copy, PartialEq, Eq, Structural)]
pub enum FrameError {
    /// The topic or the body exceeds the fixed frame bounds.
    PayloadTooLarge,
    /// A length prefix is zero or exceeds its field's bound.
    BadLength,
    /// Framed bytes that should carry text are not valid UTF-8.
    BadUtf8,
}

/// Errors of the JSON codec.
#[derive(Debug, Clone, Copy, PartialEq, Eq, Structural)]
pub enum JsonError {
    /// The text is not well-formed JSON in the subset this codec reads.
    Syntax,
    /// The value is well-formed JSON but not the expected shape.
    Shape,
}

/// Errors of the hybrid encryption envelope.
#[derive(Debug, Clone, Copy, PartialEq, Eq, Structural)]
pub enum CryptoError {
    /// A key could not be parsed or used.
    BadKey,
    /// Key wrap or AEAD sealing failed; the message is dropped, never
    /// sent in plaintext.
    EncryptFailed,
    /// Unwrapping the session key or opening the AEAD box failed.
    DecryptFailed,
    /// The envelope object does not have the expected three fields.
    BadEnvelope,
}

/// A failure of the IPC bridge while framing, encoding or decoding.
#[derive(Debug, Clone, Copy, PartialEq, Eq, Structural)]
pub enum BridgeError {
    Frame(FrameError),
    Json(JsonError),
    Crypto(CryptoError),
}

/// A failure surfaced from a plugin lifecycle phase.
#[derive(Debug, Clone)]
pub struct PluginError {
    pub message: String,
}

impl PluginError {
    pub fn new(message: &str) -> (r: PluginError)
        ensures
            r.message@ == message@,
    {
        PluginError { message: message.to_owned() }
    }
}

} // verus!
