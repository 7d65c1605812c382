use amadeus::errors::FrameError;
use amadeus::iceoryx2_types::{for_message_type, AmadeusMessageData};
use amadeus::message::MessagePriority;

#[test]
fn test_frame_roundtrip() {
    let frame = AmadeusMessageData::from_json("system.memo.create", "{\"content\":\"hi\"}", 2, 777)
        .unwrap();
    assert_eq!(frame.message_type_str().unwrap(), "system.memo.create");
    assert_eq!(frame.json_str().unwrap(), "{\"content\":\"hi\"}");
    assert_eq!(frame.priority, 2);
    assert_eq!(frame.timestamp, 777);
}

#[test]
fn test_topic_length_boundary() {
    let topic_64: String = "t".repeat(64);
    let ok = AmadeusMessageData::from_json(&topic_64, "{}", 1, 0);
    assert!(ok.is_ok(), "a 64-byte topic encodes");

    let topic_65: String = "t".repeat(65);
    let too_long = AmadeusMessageData::from_json(&topic_65, "{}", 1, 0);
    assert_eq!(too_long.err(), Some(FrameError::PayloadTooLarge), "a 65-byte topic fails");
}

#[test]
fn test_body_length_boundary() {
    let body_4096: String = "b".repeat(4096);
    let ok = AmadeusMessageData::from_json("t", &body_4096, 1, 0);
    assert!(ok.is_ok(), "a 4096-byte body encodes");

    let body_4097: String = "b".repeat(4097);
    let too_long = AmadeusMessageData::from_json("t", &body_4097, 1, 0);
    assert_eq!(too_long.err(), Some(FrameError::PayloadTooLarge), "a 4097-byte body fails");
}

#[test]
fn test_priority_byte_four_decodes_normal() {
    assert_eq!(MessagePriority::from_byte(4), MessagePriority::Normal);
    assert_eq!(MessagePriority::from_byte(0), MessagePriority::Low);
    assert_eq!(MessagePriority::from_byte(1), MessagePriority::Normal);
    assert_eq!(MessagePriority::from_byte(2), MessagePriority::High);
    assert_eq!(MessagePriority::from_byte(3), MessagePriority::Critical);
    assert_eq!(MessagePriority::from_byte(255), MessagePriority::Normal);
}

#[test]
fn test_priority_byte_roundtrip() {
    for p in [
        MessagePriority::Low,
        MessagePriority::Normal,
        MessagePriority::High,
        MessagePriority::Critical,
    ] {
        assert_eq!(MessagePriority::from_byte(p.as_byte()), p);
    }
}

#[test]
fn test_empty_topic_is_bad_length() {
    let frame = AmadeusMessageData::new();
    assert_eq!(frame.message_type_str().err(), Some(FrameError::BadLength));
    assert_eq!(frame.json_str().err(), Some(FrameError::BadLength));
}

#[test]
fn test_invalid_utf8_topic_is_rejected() {
    let mut topic_buf: Vec<u8> = vec![0u8; 64];
    topic_buf[0] = 0xff;
    let body_buf: Vec<u8> = vec![0u8; 4096];
    let frame = AmadeusMessageData::from_raw(topic_buf, 1, body_buf, 0, 1, 0).unwrap();
    assert_eq!(frame.message_type_str().err(), Some(FrameError::BadUtf8));
}

#[test]
fn test_from_raw_validates_lengths() {
    let topic_buf: Vec<u8> = vec![0u8; 64];
    let body_buf: Vec<u8> = vec![0u8; 4096];
    let bad = AmadeusMessageData::from_raw(topic_buf.clone(), 65, body_buf.clone(), 0, 1, 0);
    assert_eq!(bad.err(), Some(FrameError::BadLength));
    let short = AmadeusMessageData::from_raw(vec![0u8; 10], 1, body_buf, 0, 1, 0);
    assert_eq!(short.err(), Some(FrameError::BadLength));
}

#[test]
fn test_for_message_type_service_name() {
    assert_eq!(for_message_type("memo create"), "Amadeus/Message/memo_create");
    assert_eq!(for_message_type("plain"), "Amadeus/Message/plain");
}
