use amadeus::errors::BusError;
use amadeus::json::JsonValue;
use amadeus::message::{Message, MessagePriority, MessageSource};
use amadeus::message_context::MessageContext;
use amadeus::message_manager::{MessageManager, RouteOutcome};

fn text_payload(s: &str) -> JsonValue {
    JsonValue::Str(s.to_string())
}

fn payload_text(m: &Message) -> String {
    match &m.payload {
        JsonValue::Str(s) => s.clone(),
        _ => panic!("expected a string payload"),
    }
}

#[test]
fn test_broadcast_vs_directed_leakage() {
    let mut manager = MessageManager::new();

    let ctx_a = MessageContext::new("plugin_a", "uid-a");
    let ctx_b = MessageContext::new("plugin_b", "uid-b");
    let ctx_c = MessageContext::new("plugin_c", "uid-c");

    ctx_b.enable_direct_messaging(&mut manager);
    let rid_b = ctx_b.subscribe(&mut manager, "demo.public");
    let rid_c_public = ctx_c.subscribe(&mut manager, "demo.public");
    let rid_c_direct = ctx_c.subscribe(&mut manager, "demo.direct");

    ctx_a
        .send(&mut manager, Message::new("demo.public", text_payload("Hello Everyone!")))
        .unwrap();
    ctx_a
        .send(
            &mut manager,
            Message::new_direct("uid-b", "demo.direct", text_payload("Secret for you")),
        )
        .unwrap();

    manager.start_message_loop();

    let b_public = manager.distribution_center.recv(rid_b).expect("B should see the broadcast");
    assert_eq!(payload_text(&b_public), "Hello Everyone!");
    assert!(manager.distribution_center.recv(rid_b).is_none());

    let b_direct = manager
        .distribution_center
        .recv_direct("uid-b")
        .expect("B should receive the directed message");
    assert_eq!(payload_text(&b_direct), "Secret for you");
    assert!(manager.distribution_center.recv_direct("uid-b").is_none());

    let c_public = manager
        .distribution_center
        .recv(rid_c_public)
        .expect("C should see the broadcast");
    assert_eq!(payload_text(&c_public), "Hello Everyone!");
    assert!(manager.distribution_center.recv(rid_c_public).is_none());

    assert!(
        manager.distribution_center.recv(rid_c_direct).is_none(),
        "C must not observe the directed message"
    );
}

#[test]
fn test_unknown_recipient() {
    let mut manager = MessageManager::new();
    let ctx = MessageContext::new("watcher", "uid-w");
    let rid = ctx.subscribe_all(&mut manager);

    manager
        .enqueue(Message::new_direct("no-such-uid", "demo.direct", text_payload("lost")))
        .unwrap();
    let outcome = manager.process_next();
    assert_eq!(outcome, Some(RouteOutcome::UnknownRecipient));

    assert!(manager.distribution_center.recv(rid).is_none(), "no receiver is disturbed");
}

#[test]
fn test_source_is_stamped_by_send() {
    let mut manager = MessageManager::new();
    let ctx = MessageContext::new("stamper", "uid-s");
    let rid = ctx.subscribe(&mut manager, "stamp.topic");

    let mut msg = Message::new("stamp.topic", text_payload("x"));
    msg.source = MessageSource::External("forged".to_string());
    ctx.send(&mut manager, msg).unwrap();
    manager.start_message_loop();

    let got = manager.distribution_center.recv(rid).unwrap();
    match &got.source {
        MessageSource::Plugin(name) => assert_eq!(name, "stamper"),
        _ => panic!("the bus must stamp in-process sends with the sender's name"),
    }
}

#[test]
fn test_direct_backpressure() {
    let mut manager = MessageManager::new();
    let ctx_x = MessageContext::new("plugin_x", "uid-x");
    ctx_x.enable_direct_messaging(&mut manager);

    for i in 0..200u32 {
        let msg = Message::new_direct("uid-x", "flood", JsonValue::Int(i as i64));
        let r = manager.distribution_center.send_direct("uid-x", msg);
        if i < 100 {
            assert!(r.is_ok(), "send {} should succeed", i);
        } else {
            assert_eq!(r, Err(BusError::Backpressure), "send {} should backpressure", i);
        }
    }

    for i in 0..100u32 {
        let got = manager.distribution_center.recv_direct("uid-x").expect("queued message");
        match got.payload {
            JsonValue::Int(v) => assert_eq!(v, i as i64),
            _ => panic!("expected an integer payload"),
        }
    }
    assert!(manager.distribution_center.recv_direct("uid-x").is_none());
}

#[test]
fn test_wiretap_sees_every_broadcast_but_no_directed() {
    let mut manager = MessageManager::new();
    let tap = MessageContext::new("tap", "uid-tap");
    let rid = tap.subscribe_all(&mut manager);
    let member = MessageContext::new("member", "uid-m");
    member.enable_direct_messaging(&mut manager);

    manager.enqueue(Message::new("topic.one", text_payload("first"))).unwrap();
    manager.enqueue(Message::new("topic.two", text_payload("second"))).unwrap();
    manager
        .enqueue(Message::new_direct("uid-m", "topic.secret", text_payload("private")))
        .unwrap();
    manager.start_message_loop();

    assert_eq!(payload_text(&manager.distribution_center.recv(rid).unwrap()), "first");
    assert_eq!(payload_text(&manager.distribution_center.recv(rid).unwrap()), "second");
    assert!(manager.distribution_center.recv(rid).is_none(), "directed is never wiretapped");
}

#[test]
fn test_send_after_stop_fails_closed() {
    let mut manager = MessageManager::new();
    let ctx = MessageContext::new("late", "uid-l");
    manager.stop_message_loop();
    let r = ctx.send(&mut manager, Message::new("any.topic", JsonValue::Null));
    assert_eq!(r, Err(BusError::Closed));
}

#[test]
fn test_lossy_fanout_drops_oldest() {
    let mut manager = MessageManager::new();
    manager.distribution_center.channel_capacity = 2;
    let ctx = MessageContext::new("slow", "uid-slow");
    let rid = ctx.subscribe(&mut manager, "hot.topic");

    for i in 0..3i64 {
        manager.enqueue(Message::new("hot.topic", JsonValue::Int(i))).unwrap();
    }
    manager.start_message_loop();

    match manager.distribution_center.recv(rid).unwrap().payload {
        JsonValue::Int(v) => assert_eq!(v, 1, "the oldest message is dropped"),
        _ => panic!("expected an integer payload"),
    }
    match manager.distribution_center.recv(rid).unwrap().payload {
        JsonValue::Int(v) => assert_eq!(v, 2),
        _ => panic!("expected an integer payload"),
    }
    assert!(manager.distribution_center.recv(rid).is_none());
}

#[test]
fn test_broadcast_observer_count() {
    let mut manager = MessageManager::new();
    let a = MessageContext::new("a", "uid-1");
    let b = MessageContext::new("b", "uid-2");
    let tap = MessageContext::new("t", "uid-3");
    a.subscribe(&mut manager, "counted.topic");
    b.subscribe(&mut manager, "other.topic");
    tap.subscribe_all(&mut manager);

    let count = manager
        .distribution_center
        .distribute(&Message::new("counted.topic", JsonValue::Null));
    assert_eq!(count, 2, "one topic subscriber and one wiretap observe");

    let none = manager
        .distribution_center
        .distribute(&Message::new("unseen.topic", JsonValue::Null));
    assert_eq!(none, 1, "only the wiretap observes an unsubscribed topic");
}

#[test]
fn test_unsubscribe_bookkeeping() {
    let mut manager = MessageManager::new();
    let ctx = MessageContext::new("bookish", "uid-b");
    ctx.subscribe(&mut manager, "one");
    ctx.subscribe(&mut manager, "two");

    let before = manager.distribution_center.get_plugin_subscriptions("bookish");
    assert_eq!(before.len(), 2);

    manager.distribution_center.unsubscribe("bookish", "one");
    let after = manager.distribution_center.get_plugin_subscriptions("bookish");
    assert_eq!(after.len(), 1);
    assert_eq!(after[0], "two");

    manager.distribution_center.unsubscribe_all("bookish");
    assert_eq!(manager.distribution_center.get_plugin_subscriptions("bookish").len(), 0);
}

#[test]
fn test_fifo_per_topic_subscriber() {
    let mut manager = MessageManager::new();
    let ctx = MessageContext::new("ordered", "uid-o");
    let rid = ctx.subscribe(&mut manager, "seq.topic");
    for i in 0..10i64 {
        ctx.send(&mut manager, Message::new("seq.topic", JsonValue::Int(i))).unwrap();
    }
    manager.start_message_loop();
    for i in 0..10i64 {
        match manager.distribution_center.recv(rid).unwrap().payload {
            JsonValue::Int(v) => assert_eq!(v, i),
            _ => panic!("expected an integer payload"),
        }
    }
}

#[test]
fn test_ingress_backpressure() {
    let mut manager = MessageManager::new();
    let ctx = MessageContext::new("flooder", "uid-f");
    for _ in 0..1024u32 {
        ctx.send(&mut manager, Message::new("flood.topic", JsonValue::Null)).unwrap();
    }
    let overflow = ctx.send(&mut manager, Message::new("flood.topic", JsonValue::Null));
    assert_eq!(overflow, Err(BusError::Backpressure), "a full ingress backpressures");
}

#[test]
fn test_subscription_stats() {
    let mut manager = MessageManager::new();
    let a = MessageContext::new("a", "uid-1");
    let b = MessageContext::new("b", "uid-2");
    a.subscribe(&mut manager, "stats.topic");
    b.subscribe(&mut manager, "stats.topic");
    b.subscribe(&mut manager, "stats.other");
    b.subscribe_all(&mut manager);

    let stats = manager.distribution_center.get_subscription_stats();
    assert_eq!(stats.len(), 2);
    for (topic, count) in &stats {
        if topic == "stats.topic" {
            assert_eq!(*count, 2usize);
        } else {
            assert_eq!(topic, "stats.other");
            assert_eq!(*count, 1usize);
        }
    }
}

#[test]
fn test_priority_default_is_normal() {
    let msg = Message::new("p.topic", JsonValue::Null);
    assert_eq!(msg.priority, MessagePriority::Normal);
    let high = msg.with_priority(MessagePriority::High);
    assert_eq!(high.priority, MessagePriority::High);
}
