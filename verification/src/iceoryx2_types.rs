//! The fixed-size IPC frame carried over the shared-memory transport: a
//! length-prefixed topic of at most 64 bytes, a length-prefixed body of at
//! most 4096 bytes holding UTF-8 JSON (or the encrypted envelope), a
//! priority byte and a millisecond timestamp.

use vstd::prelude::*;
use crate::errors::FrameError;
use crate::text::bytes_to_string;
use vstd::string::{StringSliceAdditionalSpecFns, StrSliceExecFns, StringExecFns};
use vstd::utf8::{encode_utf8, valid_utf8};

verus! {

/// The topic field's bound in bytes.
pub const TOPIC_CAPACITY: usize = 64;

/// The body field's bound in bytes.
pub const BODY_CAPACITY: usize = 4096;

/// The frame record.  The two buffers always hold exactly their bound;
/// the length prefixes say how much of each is payload.
#[derive(Debug)]
pub struct AmadeusMessageData {
    pub message_type: Vec<u8>,
    pub message_type_len: u8,
    pub json_data: Vec<u8>,
    pub json_data_len: u16,
    /// Priority byte: `0..=3`; anything else decodes as `Normal`.
    pub priority: u8,
    /// Unix time in milliseconds, preserved verbatim across the wire.
    pub timestamp: u64,
}

impl AmadeusMessageData {
    /// The buffers are full-size and the length prefixes are in bounds.
    pub open spec fn wf(self) -> bool {
        &&& self.message_type@.len() == TOPIC_CAPACITY
        &&& self.message_type_len <= TOPIC_CAPACITY
        &&& self.json_data@.len() == BODY_CAPACITY
        &&& self.json_data_len <= BODY_CAPACITY
    }

    /// The topic payload: the first `message_type_len` bytes.
    pub open spec fn topic_bytes(self) -> Seq<u8> {
        self.message_type@.subrange(0, self.message_type_len as int)
    }

    /// The body payload: the first `json_data_len` bytes.
    pub open spec fn body_bytes(self) -> Seq<u8> {
        self.json_data@.subrange(0, self.json_data_len as int)
    }

    /// An empty frame with `Normal` priority.
    pub fn new() -> (r: AmadeusMessageData)
        ensures
            r.wf(),
            r.topic_bytes().len() == 0,
            r.body_bytes().len() == 0,
            r.priority == 1,
            r.timestamp == 0,
            forall|i: int| 0 <= i < TOPIC_CAPACITY ==> r.message_type@[i] == 0u8,
            forall|i: int| 0 <= i < BODY_CAPACITY ==> r.json_data@[i] == 0u8,
    {
        AmadeusMessageData {
            message_type: zero_bytes(TOPIC_CAPACITY),
            message_type_len: 0,
            json_data: zero_bytes(BODY_CAPACITY),
            json_data_len: 0,
            priority: 1,
            timestamp: 0,
        }
    }

    /// Encodes a topic and a JSON body into a frame.  Encoding succeeds
    /// exactly when the topic fits in 64 bytes and the body in 4096;
    /// oversize input is rejected with `PayloadTooLarge`.
    pub fn from_json(message_type: &str, json: &str, priority: u8, timestamp: u64) -> (r: Result<
        AmadeusMessageData,
        FrameError,
    >)
        ensures
            (r is Ok) == (message_type.spec_bytes().len() <= TOPIC_CAPACITY
                && json.spec_bytes().len() <= BODY_CAPACITY),
            r is Err ==> r == Result::<AmadeusMessageData, FrameError>::Err(
                FrameError::PayloadTooLarge,
            ),
            r matches Ok(f) ==> f.wf() && f.topic_bytes() == message_type.spec_bytes()
                && f.body_bytes() == json.spec_bytes() && f.priority == priority && f.timestamp
                == timestamp,
            r matches Ok(f) ==> (forall|i: int|
                message_type.spec_bytes().len() <= i < TOPIC_CAPACITY ==> f.message_type@[i]
                    == 0u8) && (forall|i: int|
                json.spec_bytes().len() <= i < BODY_CAPACITY ==> f.json_data@[i] == 0u8),
    {
        let type_bytes = message_type.as_bytes();
        if type_bytes.len() > TOPIC_CAPACITY {
            return Err(FrameError::PayloadTooLarge);
        }
        let json_bytes = json.as_bytes();
        if json_bytes.len() > BODY_CAPACITY {
            return Err(FrameError::PayloadTooLarge);
        }
        let f = AmadeusMessageData {
            message_type: pad_bytes(type_bytes, TOPIC_CAPACITY),
            message_type_len: type_bytes.len() as u8,
            json_data: pad_bytes(json_bytes, BODY_CAPACITY),
            json_data_len: json_bytes.len() as u16,
            priority,
            timestamp,
        };
        proof {
            assert(f.topic_bytes() =~= message_type.spec_bytes());
            assert(f.body_bytes() =~= json.spec_bytes());
        }
        Ok(f)
    }

    /// Reads a frame received from the wire, validating the length
    /// prefixes against the fixed bounds.
    pub fn from_raw(
        message_type: Vec<u8>,
        message_type_len: u8,
        json_data: Vec<u8>,
        json_data_len: u16,
        priority: u8,
        timestamp: u64,
    ) -> (r: Result<AmadeusMessageData, FrameError>)
        ensures
            (r is Ok) == (message_type@.len() == TOPIC_CAPACITY && message_type_len
                <= TOPIC_CAPACITY && json_data@.len() == BODY_CAPACITY && json_data_len
                <= BODY_CAPACITY),
            r is Err ==> r == Result::<AmadeusMessageData, FrameError>::Err(FrameError::BadLength),
            r matches Ok(f) ==> f.wf() && f.message_type@ == message_type@
                && f.message_type_len == message_type_len && f.json_data@ == json_data@
                && f.json_data_len == json_data_len && f.priority == priority && f.timestamp
                == timestamp,
    {
        if message_type.len() != TOPIC_CAPACITY || json_data.len() != BODY_CAPACITY {
            return Err(FrameError::BadLength);
        }
        if message_type_len as usize > TOPIC_CAPACITY || json_data_len as usize > BODY_CAPACITY {
            return Err(FrameError::BadLength);
        }
        Ok(
            AmadeusMessageData {
                message_type,
                message_type_len,
                json_data,
                json_data_len,
                priority,
                timestamp,
            },
        )
    }

    /// The topic as text.  Fails on an empty topic or bytes that are not
    /// UTF-8; on success the string's characters encode exactly the topic
    /// bytes.
    pub fn message_type_str(&self) -> (r: Result<String, FrameError>)
        requires
            self.wf(),
        ensures
            (r is Ok) == (self.message_type_len > 0 && valid_utf8(self.topic_bytes())),
            r matches Ok(s) ==> encode_utf8(s@) == self.topic_bytes(),
            self.message_type_len == 0 ==> r == Result::<String, FrameError>::Err(
                FrameError::BadLength,
            ),
            self.message_type_len > 0 && !valid_utf8(self.topic_bytes()) ==> r == Result::<
                String,
                FrameError,
            >::Err(FrameError::BadUtf8),
    {
        if self.message_type_len == 0 {
            return Err(FrameError::BadLength);
        }
        let prefix = slice_prefix(&self.message_type, self.message_type_len as usize);
        match bytes_to_string(prefix.as_slice()) {
            Some(s) => Ok(s),
            None => Err(FrameError::BadUtf8),
        }
    }

    /// The body as text, under the same rules as `message_type_str`.
    pub fn json_str(&self) -> (r: Result<String, FrameError>)
        requires
            self.wf(),
        ensures
            (r is Ok) == (self.json_data_len > 0 && valid_utf8(self.body_bytes())),
            r matches Ok(s) ==> encode_utf8(s@) == self.body_bytes(),
            self.json_data_len == 0 ==> r == Result::<String, FrameError>::Err(
                FrameError::BadLength,
            ),
            self.json_data_len > 0 && !valid_utf8(self.body_bytes()) ==> r == Result::<
                String,
                FrameError,
            >::Err(FrameError::BadUtf8),
    {
        if self.json_data_len == 0 {
            return Err(FrameError::BadLength);
        }
        let prefix = slice_prefix(&self.json_data, self.json_data_len as usize);
        match bytes_to_string(prefix.as_slice()) {
            Some(s) => Ok(s),
            None => Err(FrameError::BadUtf8),
        }
    }
}

impl Default for AmadeusMessageData {
    /// The default frame: empty payloads and `Normal` priority.
    fn default() -> (r: AmadeusMessageData)
        ensures
            r.wf(),
            r.topic_bytes().len() == 0,
            r.body_bytes().len() == 0,
            r.priority == 1,
            r.timestamp == 0,
            forall|i: int| 0 <= i < TOPIC_CAPACITY ==> r.message_type@[i] == 0u8,
            forall|i: int| 0 <= i < BODY_CAPACITY ==> r.json_data@[i] == 0u8,
    {
        AmadeusMessageData::new()
    }
}

/// `n` zero bytes.
fn zero_bytes(n: usize) -> (r: Vec<u8>)
    ensures
        r@.len() == n,
        forall|i: int| 0 <= i < n ==> r@[i] == 0u8,
{
    let mut out: Vec<u8> = Vec::new();
    let mut i: usize = 0;
    while i < n
        invariant
            i <= n,
            out@.len() == i as int,
            forall|j: int| 0 <= j < i ==> out@[j] == 0u8,
        decreases n - i,
    {
        out.push(0);
        i = i + 1;
    }
    out
}

/// `bytes` padded with zeros up to `n`.
fn pad_bytes(bytes: &[u8], n: usize) -> (r: Vec<u8>)
    requires
        bytes@.len() <= n,
    ensures
        r@.len() == n,
        r@.subrange(0, bytes@.len() as int) == bytes@,
        forall|i: int| bytes@.len() <= i < n ==> r@[i] == 0u8,
{
    let mut out: Vec<u8> = Vec::new();
    let mut i: usize = 0;
    while i < n
        invariant
            i <= n,
            bytes@.len() <= n,
            out@.len() == i as int,
            forall|j: int| 0 <= j < i && j < bytes@.len() ==> out@[j] == bytes@[j],
            forall|j: int| bytes@.len() <= j < i ==> out@[j] == 0u8,
        decreases n - i,
    {
        if i < bytes.len() {
            out.push(bytes[i]);
        } else {
            out.push(0);
        }
        i = i + 1;
    }
    proof {
        assert(out@.subrange(0, bytes@.len() as int) =~= bytes@);
    }
    out
}

/// The first `n` bytes of `v` as a new vector.
fn slice_prefix(v: &Vec<u8>, n: usize) -> (r: Vec<u8>)
    requires
        n <= v@.len(),
    ensures
        r@ == v@.subrange(0, n as int),
{
    let mut out: Vec<u8> = Vec::new();
    let mut i: usize = 0;
    while i < n
        invariant
            i <= n,
            n <= v@.len(),
            out@.len() == i as int,
            forall|j: int| 0 <= j < i ==> out@[j] == v@[j],
        decreases n - i,
    {
        out.push(v[i]);
        i = i + 1;
    }
    proof {
        assert(out@ =~= v@.subrange(0, n as int));
    }
    out
}

/// The character sequence with every space replaced by an underscore.
pub open spec fn underscored(s: Seq<char>) -> Seq<char> {
    Seq::new(s.len(), |i: int| if s[i] == ' ' { '_' } else { s[i] })
}

/// The transport service name for one message type:
/// `Amadeus/Message/<type>` with spaces replaced by underscores.
#[verifier::loop_isolation(false)]
pub fn for_message_type(message_type: &str) -> (r: String)
    ensures
        r@ == "Amadeus/Message/"@ + underscored(message_type@),
{
    let mut out = String::from_str("Amadeus/Message/");
    let n = message_type.unicode_len();
    let mut i: usize = 0;
    proof {
        assert(out@ + underscored(message_type@.take(0)) =~= out@);
    }
    while i < n
        invariant
            i <= n,
            n == message_type@.len(),
            out@ == "Amadeus/Message/"@ + underscored(message_type@.take(i as int)),
        decreases n - i,
    {
        let c = message_type.get_char(i);
        if c == ' ' {
            out.append("_");
        } else {
            let piece = message_type.substring_char(i, i + 1);
            out.append(piece);
        }
        proof {
            assert(underscored(message_type@.take(i + 1)) =~= underscored(
                message_type@.take(i as int),
            ).push(if message_type@[i as int] == ' ' {
                '_'
            } else {
                message_type@[i as int]
            }));
            reveal_strlit("_");
            assert(out@ =~= "Amadeus/Message/"@ + underscored(message_type@.take(i + 1)));
        }
        i = i + 1;
    }
    proof {
        assert(message_type@.take(n as int) =~= message_type@);
    }
    out
}

/// The frame round-trip law: a frame encoded from a topic and body
/// carries exactly their bytes, so any text read back from it (whose
/// characters encode those bytes) is the original text, and the priority
/// byte and timestamp ride unchanged in their own fields.
pub proof fn lemma_frame_roundtrip(f: AmadeusMessageData, topic: Seq<char>, body: Seq<char>, t2: Seq<char>, b2: Seq<char>)
    requires
        f.topic_bytes() == encode_utf8(topic),
        f.body_bytes() == encode_utf8(body),
        encode_utf8(t2) == f.topic_bytes(),
        encode_utf8(b2) == f.body_bytes(),
    ensures
        t2 == topic,
        b2 == body,
{
    vstd::utf8::encode_utf8_decode_utf8(topic);
    vstd::utf8::encode_utf8_decode_utf8(body);
    vstd::utf8::encode_utf8_decode_utf8(t2);
    vstd::utf8::encode_utf8_decode_utf8(b2);
}

} // verus!
