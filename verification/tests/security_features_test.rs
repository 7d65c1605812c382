use amadeus::crypto::{open_envelope, seal_envelope, b64_decode, b64_encode, EncryptedEnvelope};
use amadeus::message_context::MessageContext;
use amadeus::message_manager::MessageManager;
use amadeus::plugin::PluginMetadata;
use amadeus::dispatcher::{forward_broadcast, ingest_frame, should_forward};
use amadeus::json::JsonValue;
use amadeus::message::{Message, MessageSource};
use base64::engine::general_purpose::STANDARD as BASE64;
use base64::Engine as _;
use rsa::pkcs8::{EncodePrivateKey, EncodePublicKey, LineEnding};
use rsa::{Pkcs1v15Encrypt, RsaPrivateKey, RsaPublicKey};

fn test_keypair() -> (String, String) {
    let mut rng = rand::thread_rng();
    let bits: usize = 2048;
    let private_key = RsaPrivateKey::new(&mut rng, bits).unwrap();
    let public_key = RsaPublicKey::from(&private_key);
    let private_pem = private_key.to_pkcs8_pem(LineEnding::LF).unwrap().to_string();
    let public_pem = public_key.to_public_key_pem(LineEnding::LF).unwrap();
    (private_pem, public_pem)
}

#[test]
fn test_encryption_logic_simulation() {
    let mut rng = rand::thread_rng();
    let bits: usize = 2048;
    let private_key = RsaPrivateKey::new(&mut rng, bits).unwrap();
    let public_key = RsaPublicKey::from(&private_key);

    let original_payload = "{\"foo\":\"bar\",\"secret\":\"password123\"}".to_string();

    let data = original_payload.as_bytes();
    let encrypted_bytes = public_key.encrypt(&mut rng, Pkcs1v15Encrypt, data).unwrap();
    let encoded = BASE64.encode(encrypted_bytes);

    let mut sent = String::from("{\"secure_payload\":\"");
    sent.push_str(&encoded);
    sent.push_str("\"}");

    println!("Encrypted Payload: {}", sent);

    let sent_json: serde_json::Value = serde_json::from_str(&sent).unwrap();

    assert!(sent_json.get("secure_payload").is_some());
    assert!(sent_json.get("foo").is_none());

    let received_encoded = sent_json["secure_payload"].as_str().unwrap();
    let decoded_bytes = BASE64.decode(received_encoded).unwrap();

    let decrypted_bytes = private_key.decrypt(Pkcs1v15Encrypt, &decoded_bytes).unwrap();
    let decrypted_payload = String::from_utf8(decrypted_bytes).unwrap();

    assert_eq!(original_payload, decrypted_payload);
    println!("Decryption successful!");
}

#[test]
fn test_envelope_roundtrip() {
    let (private_pem, public_pem) = test_keypair();
    let plaintext: Vec<u8> = b"a small secret payload".to_vec();

    let env = seal_envelope(&plaintext, &public_pem).unwrap();
    let opened = open_envelope(&env, &private_pem).unwrap();
    assert_eq!(opened, plaintext);
}

#[test]
fn test_envelope_confidentiality_through_bridge() {
    let (private_pem, public_pem) = test_keypair();

    let mut payload_fields: Vec<(String, JsonValue)> = Vec::new();
    payload_fields.push(("content".to_string(), JsonValue::Str("password123".to_string())));
    let msg = Message::from_plugin("secure.topic", JsonValue::Obj(payload_fields), "sender");
    let expected_plain = msg.to_json().unwrap();

    let frame = forward_broadcast(&msg, Some(&public_pem)).unwrap().expect("forwarded");
    let body = frame.json_str().unwrap();

    assert!(!body.contains("password123"), "the plaintext must not appear on the wire");

    let parsed: serde_json::Value = serde_json::from_str(&body).unwrap();
    let secure_key = parsed["secure_key"].as_str().unwrap().to_string();
    let iv = parsed["iv"].as_str().unwrap().to_string();
    let secure_payload = parsed["secure_payload"].as_str().unwrap().to_string();

    let env = EncryptedEnvelope { secure_key, iv, secure_payload };
    let opened = open_envelope(&env, &private_pem).unwrap();
    assert_eq!(opened, expected_plain.as_bytes(), "decryption recovers the body byte-for-byte");
}

#[test]
fn test_bridge_loop_guard() {
    let msg = Message::from_plugin("looping.topic", JsonValue::Null, "someone");
    let frame = forward_broadcast(&msg, None).unwrap().expect("plain forward");

    let ingested = ingest_frame(&frame).unwrap().expect("ingested");
    match &ingested.source {
        MessageSource::External(tag) => assert_eq!(tag, "iceoryx2"),
        _ => panic!("ingested messages carry an external source"),
    }

    let again = forward_broadcast(&ingested, None).unwrap();
    assert!(again.is_none(), "a locally ingested message is never re-forwarded");
    assert!(!should_forward(&ingested));
}

#[test]
fn test_bridge_drops_own_dispatcher_messages() {
    let msg = Message::from_plugin("own.topic", JsonValue::Null, "Iceoryx2Dispatcher");
    let frame = forward_broadcast(&msg, None).unwrap().expect("forwarded");
    let ingested = ingest_frame(&frame).unwrap();
    assert!(ingested.is_none(), "the subscriber drops the bridge's own messages");
}

#[test]
fn test_bridge_preserves_external_tag_and_frame_fields() {
    let mut msg = Message::from_external("hop.topic", JsonValue::Int(5), "other-host");
    msg.timestamp = 123456;
    let frame = forward_broadcast(&msg, None).unwrap().expect("forwarded");
    assert_eq!(frame.timestamp, 123456);

    let ingested = ingest_frame(&frame).unwrap().expect("ingested");
    match &ingested.source {
        MessageSource::External(tag) => {
            assert_eq!(tag, "other-host", "a foreign external tag is preserved")
        },
        _ => panic!("expected an external source"),
    }
    assert_eq!(ingested.timestamp, 123456, "the frame timestamp is preserved verbatim");
}

#[test]
fn test_base64_wrapper_is_the_standard_encoding() {
    let encoded = b64_encode(b"hi");
    assert_eq!(encoded, "aGk=");
    let decoded = b64_decode(&encoded).unwrap();
    assert_eq!(decoded, b"hi".to_vec());
    assert!(b64_decode("not valid base64!!!").is_none());
}

#[test]
fn test_plugin_uid_and_direct_messaging() {
    let mut manager = MessageManager::new();

    let meta_a = PluginMetadata::new("plugin_a", "Mock Plugin", "0.1.0");
    let meta_b = PluginMetadata::new("plugin_b", "Mock Plugin", "0.1.0");
    let meta_c = PluginMetadata::new("plugin_c", "Mock Plugin", "0.1.0");

    let uid_a = meta_a.uid.clone();
    let uid_b = meta_b.uid.clone();
    let uid_c = meta_c.uid.clone();

    assert_ne!(uid_a, uid_b);
    assert_ne!(uid_b, uid_c);

    println!("UID A: {}", uid_a);
    println!("UID B: {}", uid_b);

    let ctx_a = MessageContext::new(&meta_a.name, &uid_a);
    let ctx_b = MessageContext::new(&meta_b.name, &uid_b);
    let ctx_c = MessageContext::new(&meta_c.name, &uid_c);

    ctx_b.enable_direct_messaging(&mut manager);
    ctx_c.enable_direct_messaging(&mut manager);

    let mut fields: Vec<(String, JsonValue)> = Vec::new();
    fields.push(("content".to_string(), JsonValue::Str("Hello B, this is secret!".to_string())));
    let secret_msg = Message::new_direct(&uid_b, "secret.chat", JsonValue::Obj(fields));
    ctx_a.send(&mut manager, secret_msg).unwrap();

    manager.start_message_loop();

    let got = manager
        .distribution_center
        .recv_direct(&uid_b)
        .expect("Plugin B did not receive the message");
    assert_eq!(got.message_type.0, "secret.chat");
    println!("Plugin B received secret message: {:?}", got.payload);

    assert!(
        manager.distribution_center.recv_direct(&uid_c).is_none(),
        "Plugin C received a message it shouldn't have!"
    );
    println!("Verified Plugin C did not receive the message");
}
