use amadeus::json::JsonValue;
use amadeus::message::{Message, MessagePriority, MessageSource};
use amadeus::user::{Permission, PlatformId, PlatformUserId, UserContext, UserId, UserInfo};

fn obj(fields: Vec<(&str, JsonValue)>) -> JsonValue {
    let mut out: Vec<(String, JsonValue)> = Vec::new();
    for (k, v) in fields {
        out.push((k.to_string(), v));
    }
    JsonValue::Obj(out)
}

#[test]
fn test_json_value_writer_parser_roundtrip() {
    let value = obj(vec![
        ("null", JsonValue::Null),
        ("yes", JsonValue::Bool(true)),
        ("no", JsonValue::Bool(false)),
        ("count", JsonValue::Int(-42)),
        ("min", JsonValue::Int(i64::MIN)),
        ("max", JsonValue::Int(i64::MAX)),
        ("text", JsonValue::Str("line\nquote\"back\\slash".to_string())),
        (
            "list",
            JsonValue::Arr(vec![JsonValue::Int(1), JsonValue::Str("two".to_string()), JsonValue::Null]),
        ),
        ("empty_list", JsonValue::Arr(Vec::new())),
        ("empty_obj", JsonValue::Obj(Vec::new())),
    ]);
    let bytes = value.write_json();
    let back = JsonValue::parse_json(&bytes).expect("the writer's output parses");
    let again = back.write_json();
    assert_eq!(bytes, again, "write-parse-write is stable");
}

#[test]
fn test_json_parser_accepts_whitespace_and_rejects_garbage() {
    let ok = JsonValue::parse_json(b" { \"a\" : [ 1 , 2 ] } ");
    assert!(ok.is_some());
    assert!(JsonValue::parse_json(b"{\"a\":}").is_none());
    assert!(JsonValue::parse_json(b"[1,]").is_none());
    assert!(JsonValue::parse_json(b"tru").is_none());
    assert!(JsonValue::parse_json(b"{}extra").is_none());
    assert!(JsonValue::parse_json(b"").is_none());
}

#[test]
fn test_message_json_roundtrip_all_fields() {
    let user = UserInfo {
        id: UserId::new("u-1"),
        name: "Tester".to_string(),
        platform: PlatformId("cli".to_string()),
        platform_user_id: PlatformUserId("42".to_string()),
    };
    let ctx = UserContext::new(user).with_role("editor").with_permission("memo:create");

    let mut msg = Message::new_direct(
        "uid-target",
        "system.memo.create",
        obj(vec![("content", JsonValue::Str("Prepare for Interview".to_string()))]),
    )
    .with_priority(MessagePriority::Critical)
    .with_id("corr-7")
    .with_metadata("origin", "test")
    .with_metadata("origin", "replaced");
    msg.source = MessageSource::Plugin("sender".to_string());
    msg.timestamp = 1700000000000;
    msg.user_context = Some(ctx);

    let text = msg.to_json().unwrap();
    let back = Message::from_json(&text).unwrap();

    assert_eq!(back.message_type.0, "system.memo.create");
    assert_eq!(back.priority, MessagePriority::Critical);
    match &back.source {
        MessageSource::Plugin(n) => assert_eq!(n, "sender"),
        _ => panic!("source must survive the round trip"),
    }
    assert_eq!(back.recipient.as_deref(), Some("uid-target"));
    assert_eq!(back.timestamp, 1700000000000);
    assert_eq!(back.message_id.as_deref(), Some("corr-7"));
    assert_eq!(back.metadata.len(), 1);
    assert_eq!(back.metadata[0].0, "origin");
    assert_eq!(back.metadata[0].1, "replaced");
    match &back.payload {
        JsonValue::Obj(fields) => {
            assert_eq!(fields.len(), 1);
            assert_eq!(fields[0].0, "content");
            match &fields[0].1 {
                JsonValue::Str(s) => assert_eq!(s, "Prepare for Interview"),
                _ => panic!("payload content must be a string"),
            }
        },
        _ => panic!("payload must be an object"),
    }
    let back_ctx = back.user_context.expect("user context must survive");
    assert_eq!(back_ctx.user.id.0, "u-1");
    assert_eq!(back_ctx.user.name, "Tester");
    assert_eq!(back_ctx.roles.len(), 1);
    assert_eq!(back_ctx.roles[0], "editor");
    assert_eq!(back_ctx.permissions.len(), 1);
    assert_eq!(back_ctx.permissions[0].0, "memo:create");
    assert_eq!(back_ctx.expires_at, None);
}

#[test]
fn test_message_json_cross_checked_with_serde() {
    let msg = Message::from_plugin(
        "demo.topic",
        obj(vec![("content", JsonValue::Str("hello".to_string()))]),
        "demo-plugin",
    );
    let text = msg.to_json().unwrap();
    let value: serde_json::Value = serde_json::from_str(&text).unwrap();
    assert_eq!(value["message_type"], "demo.topic");
    assert_eq!(value["payload"]["content"], "hello");
    assert_eq!(value["priority"], 1);
    assert_eq!(value["source"]["Plugin"], "demo-plugin");
    assert!(value["recipient"].is_null());
    assert!(value["message_id"].is_null());
}

#[test]
fn test_from_json_rejects_wrong_shape() {
    assert!(Message::from_json("{\"not\":\"a message\"}").is_err());
    assert!(Message::from_json("nonsense").is_err());
    assert!(Message::from_json("[1,2,3]").is_err());
}

#[test]
fn test_permission_matching() {
    assert!(Permission::new("*").matches("anything:at:all"));
    assert!(Permission::new("memo:*").matches("memo:create"));
    assert!(Permission::new("memo:*").matches("memo:read"));
    assert!(!Permission::new("memo:create").matches("memo:read"));
    assert!(Permission::new("memo:create").matches("memo:create"));
    assert!(Permission::new("memo").matches("memo:create"), "a prefix permission grants");
    assert!(!Permission::new("memo:create").matches("memo"));
    assert!(!Permission::new("other:*").matches("memo:create"));
}

#[test]
fn test_has_permission() {
    let user = UserInfo {
        id: UserId::new("u-2"),
        name: "Admin".to_string(),
        platform: PlatformId("cli".to_string()),
        platform_user_id: PlatformUserId("1".to_string()),
    };
    let admin = UserContext::new(user.clone()).with_role("admin");
    assert!(admin.has_permission("system:wipe"), "an admin role grants everything");

    let rooted = UserContext::new(user.clone()).with_role("root");
    assert!(rooted.has_permission("memo:create"));

    let scoped = UserContext::new(user.clone()).with_permission("memo:*");
    assert!(scoped.has_permission("memo:create"));
    assert!(!scoped.has_permission("system:admin"));

    let bare = UserContext::new(user);
    assert!(!bare.has_permission("memo:create"));
}

#[test]
fn test_metadata_insert_replaces() {
    let msg = Message::new("m.topic", JsonValue::Null)
        .with_metadata("a", "1")
        .with_metadata("b", "2")
        .with_metadata("a", "3");
    assert_eq!(msg.metadata.len(), 2);
    assert_eq!(msg.metadata[0].0, "a");
    assert_eq!(msg.metadata[0].1, "3");
    assert_eq!(msg.metadata[1].0, "b");
    assert_eq!(msg.metadata[1].1, "2");
}

#[test]
fn test_user_context_expiry_roundtrip() {
    let user = UserInfo {
        id: UserId::new("u-3"),
        name: "Expiring".to_string(),
        platform: PlatformId("cli".to_string()),
        platform_user_id: PlatformUserId("9".to_string()),
    };
    let mut ctx = UserContext::new(user);
    ctx.expires_at = Some(4200);
    let mut msg = Message::new("expiry.topic", JsonValue::Null);
    msg.user_context = Some(ctx);

    let text = msg.to_json().unwrap();
    let back = Message::from_json(&text).unwrap();
    assert_eq!(back.user_context.unwrap().expires_at, Some(4200));
}

#[test]
fn test_json_unicode_escape_parses() {
    let parsed = JsonValue::parse_json(b"\"\\u0041\"").expect("an ASCII escape parses");
    match parsed {
        JsonValue::Str(s) => assert_eq!(s, "A"),
        _ => panic!("expected a string"),
    }
    assert!(
        JsonValue::parse_json(b"\"\\u0394\"").is_none(),
        "escapes beyond ASCII are rejected by this codec"
    );
}

#[test]
fn test_to_json_is_stable_after_decode() {
    let msg = Message::from_plugin("stable.topic", obj(vec![("n", JsonValue::Int(7))]), "p");
    let text = msg.to_json().unwrap();
    let back = Message::from_json(&text).unwrap();
    let text2 = back.to_json().unwrap();
    assert_eq!(text, text2, "decoding and re-encoding reproduces the text");
}

#[test]
fn test_unrepresentable_timestamp_is_rejected() {
    let mut msg = Message::new("t", JsonValue::Null);
    msg.timestamp = u64::MAX;
    assert!(msg.to_json().is_err(), "a timestamp beyond i64 cannot be encoded");
}
