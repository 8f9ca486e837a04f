use squirrel::inference::backend::{FinishReason, InferenceRequest, InferenceResponse};
use squirrel::intent_bus::audit::{AuditLog, CAPACITY};
use squirrel::intent_bus::bus::{current_ms, set_current_ms, IntentBus, INBOX_CAPACITY};
use squirrel::intent_bus::intent::{Intent, IntentPriority, SemanticType};
use squirrel::intent_bus::payloads::{
    Empty, ErrorPayload, GlassBoxUpdate, Heartbeat, KeyValue, Payload, StringPayload, TestMsg,
};
use squirrel::kernel::boot::{
    boot_order, bus_self_test, component_name, glass_box_self_test, is_registered, subscriptions, Component,
};
use squirrel::network::agent::{NetworkRequest, NetworkResponse};

fn plain(kind: &str, bytes: &[u8]) -> Intent {
    Intent::with_bytes(kind, "someone", bytes.to_vec())
}

#[test]
fn pattern_matches_itself_and_what_is_below() {
    let t = SemanticType::new("inference.generate.response");
    assert!(t.matches("inference.generate.response"));
    assert!(t.matches("inference.generate"));
    assert!(t.matches("inference"));
    assert!(!t.matches("infer"));
    assert!(!t.matches("inference.gen"));
    assert!(!t.matches("inference.generate.response.more"));
    assert_eq!(t.as_str(), "inference.generate.response");
}

#[test]
fn priorities_are_ranked() {
    assert!(IntentPriority::Background.rank() < IntentPriority::Normal.rank());
    assert!(IntentPriority::Normal.rank() < IntentPriority::High.rank());
    assert!(IntentPriority::High.rank() < IntentPriority::Critical.rank());
    assert!(IntentPriority::default() == IntentPriority::Normal);
}

#[test]
fn sent_intent_is_stamped_delivered_and_audited() {
    let mut bus = IntentBus::new();
    set_current_ms(&mut bus, 1234);
    assert_eq!(current_ms(&bus), 1234);
    let a = bus.connect("a", &[]);
    let b = bus.connect("b", &["demo"]);
    assert_eq!(a.sender_name(), "a");
    let id = a.send(&mut bus, plain("demo.ping", &[1, 2, 3]));
    assert_eq!(id, 1);
    let got = b.try_recv(&mut bus).unwrap();
    assert_eq!(got.id, 1);
    assert_eq!(got.sender, "a");
    assert_eq!(got.timestamp_ms, 1234);
    assert_eq!(got.payload, vec![1, 2, 3]);
    assert!(b.try_recv(&mut bus).is_none());
    assert!(a.try_recv(&mut bus).is_none());
    let log = bus.audit_snapshot(5);
    assert_eq!(log.len(), 1);
    assert_eq!(log[0].semantic_type, "demo.ping");
    assert_eq!(log[0].sender, "a");
    assert_eq!(log[0].payload_len, 3);
    assert_eq!(log[0].timestamp_ms, 1234);
}

#[test]
fn ids_increase() {
    let mut bus = IntentBus::new();
    let first = bus.send(plain("x", &[]));
    let second = bus.send(plain("x", &[]));
    assert_eq!((first, second), (1, 2));
}

#[test]
fn higher_priority_is_received_first() {
    let mut bus = IntentBus::new();
    let b = bus.connect("b", &["demo"]);
    bus.send(plain("demo", &[1]));
    bus.send(plain("demo", &[2]).with_priority(IntentPriority::Critical));
    bus.send(plain("demo", &[3]).with_priority(IntentPriority::Background));
    bus.send(plain("demo", &[4]));
    let order: Vec<u8> = (0..4).map(|_| b.try_recv(&mut bus).unwrap().payload[0]).collect();
    assert_eq!(order, vec![2, 1, 4, 3]);
}

#[test]
fn full_inbox_drops_its_oldest_intent() {
    let mut bus = IntentBus::new();
    let b = bus.connect("b", &["demo"]);
    for i in 0..(INBOX_CAPACITY as u8 + 2) {
        bus.send(plain("demo", &[i]));
    }
    let first = b.try_recv(&mut bus).unwrap();
    assert_eq!(first.payload, vec![2]);
    let mut left = 1;
    while b.try_recv(&mut bus).is_some() {
        left += 1;
    }
    assert_eq!(left, INBOX_CAPACITY);
}

#[test]
fn audit_log_keeps_the_newest_entries() {
    let mut bus = IntentBus::new();
    for _ in 0..(CAPACITY + 10) {
        bus.send(plain("demo", &[]));
    }
    let log = bus.audit_snapshot(CAPACITY + 100);
    assert_eq!(log.len(), CAPACITY);
    assert_eq!(log[0].id, (CAPACITY + 10) as u64);
    assert_eq!(log[CAPACITY - 1].id, 11);
    assert_eq!(bus.audit_snapshot(2)[1].id, (CAPACITY + 9) as u64);
}

#[test]
fn audit_log_counts_its_entries() {
    let mut log = AuditLog::new();
    assert_eq!(log.total_count(), 0);
    log.record(&plain("demo", &[7, 7]));
    assert_eq!(log.total_count(), 1);
    assert_eq!(log.last(1)[0].payload_len, 2);
}

#[test]
fn response_names_its_request() {
    let mut bus = IntentBus::new();
    let b = bus.connect("b", &["demo.ask"]);
    bus.send(plain("demo.ask", &[]));
    let question = b.try_recv(&mut bus).unwrap();
    let answer = Intent::response(&question, "b", &TestMsg { value: 7 });
    assert_eq!(answer.reply_to, Some(1));
    assert_eq!(answer.semantic_type.as_str(), "demo.ask.response");
    assert!(answer.semantic_type.matches("demo.ask"));
}

#[test]
fn payloads_are_read_back() {
    assert_eq!(TestMsg { value: 300 }.encode(), vec![0xac, 0x02]);
    assert_eq!(TestMsg::parse(&[0xac, 0x02]).unwrap().value, 300);
    assert!(TestMsg::parse(&[]).is_none());

    let beat = Heartbeat { beat: 1, tick: 128 };
    assert_eq!(beat.encode(), vec![1, 0x80, 0x01]);
    assert!(Heartbeat::parse(&beat.encode()).unwrap() == beat);

    let s = String::from("h\u{e9}");
    assert_eq!(s.encode(), vec![3, b'h', 0xc3, 0xa9]);
    assert_eq!(String::parse(&s.encode()).unwrap(), s);

    let v = StringPayload { value: String::from("hi") };
    assert_eq!(v.encode(), vec![2, b'h', b'i']);
    assert_eq!(StringPayload::parse(&[2, b'h', b'i', 9]).unwrap().value, "hi");

    let e = ErrorPayload { code: 5, message: String::from("no") };
    assert_eq!(e.encode(), vec![5, 2, b'n', b'o']);
    let back = ErrorPayload::parse(&e.encode()).unwrap();
    assert_eq!((back.code, back.message.as_str()), (5, "no"));

    let kv = KeyValue { key: String::from("k"), value: String::from("vv") };
    assert_eq!(kv.encode(), vec![1, b'k', 2, b'v', b'v']);
    let back = KeyValue::parse(&kv.encode()).unwrap();
    assert_eq!((back.key.as_str(), back.value.as_str()), ("k", "vv"));

    assert!(Empty {}.encode().is_empty());
    assert!(Empty::parse(&[]).is_some());

    let u = GlassBoxUpdate::new("m", "k", "v");
    assert_eq!(u.encode(), vec![1, b'm', 1, b'k', 1, b'v']);
    assert_eq!(GlassBoxUpdate::parse(&u.encode()).unwrap().value, "v");
    assert!(GlassBoxUpdate::parse(&[1, b'm', 1]).is_none());
}

#[test]
fn inference_payloads_are_read_back() {
    let request = InferenceRequest {
        prompt: String::from("hi"),
        max_tokens: 400,
        temperature: 0.7f32.to_bits(),
        stop_sequences: vec![String::from("a"), String::from("bc")],
    };
    let bytes = request.encode();
    let four = 0.7f32.to_le_bytes();
    assert_eq!(
        bytes,
        vec![2, b'h', b'i', 0x90, 0x03, four[0], four[1], four[2], four[3], 2, 1, b'a', 2, b'b', b'c']
    );
    let back = InferenceRequest::parse(&bytes).unwrap();
    assert_eq!(back.prompt, "hi");
    assert_eq!(back.max_tokens, 400);
    assert_eq!(f32::from_bits(back.temperature), 0.7);
    assert_eq!(back.stop_sequences, vec!["a", "bc"]);

    let response = InferenceResponse {
        text: String::from("ok"),
        tokens_generated: 3,
        finish_reason: FinishReason::MaxTokens,
        backend_used: String::from("x"),
        latency_ms: 9,
    };
    let bytes = response.encode();
    assert_eq!(bytes, vec![2, b'o', b'k', 3, 1, 1, b'x', 9]);
    let back = InferenceResponse::parse(&bytes).unwrap();
    assert_eq!(back.text, "ok");
    assert!(back.finish_reason == FinishReason::MaxTokens);
    assert_eq!(back.latency_ms, 9);
    assert!(InferenceResponse::parse(&[2, b'o', b'k', 3, 7, 1, b'x', 9]).is_none());
}

#[test]
fn network_payloads_are_read_back() {
    let request = NetworkRequest {
        url: String::from("u"),
        headers: vec![(String::from("a"), String::from("b"))],
        body: vec![200, 1],
    };
    let bytes = request.encode();
    assert_eq!(bytes, vec![1, b'u', 1, 1, b'a', 1, b'b', 2, 200, 1]);
    let back = NetworkRequest::parse(&bytes).unwrap();
    assert_eq!(back.url, "u");
    assert_eq!(back.headers, request.headers);
    assert_eq!(back.body, vec![200, 1]);

    let failed = NetworkResponse { status_code: 0, body: vec![], error: Some(String::from("no")) };
    assert_eq!(failed.encode(), vec![0, 0, 1, 2, b'n', b'o']);
    let good = NetworkResponse { status_code: 200, body: vec![5], error: None };
    assert_eq!(good.encode(), vec![0xc8, 0x01, 1, 5, 0]);
    let back = NetworkResponse::parse(&good.encode()).unwrap();
    assert_eq!((back.status_code, back.body, back.error), (200, vec![5], None));
}

#[test]
fn decode_gives_the_payload_or_an_error() {
    let mut bus = IntentBus::new();
    let b = bus.connect("b", &["demo"]);
    bus.send(Intent::request("demo", "a", &TestMsg { value: 42 }));
    bus.send(plain("demo", &[]));
    assert_eq!(b.try_recv(&mut bus).unwrap().decode::<TestMsg>().unwrap().value, 42);
    assert!(b.try_recv(&mut bus).unwrap().decode::<TestMsg>().is_err());
}

#[test]
fn bus_passes_its_self_test() {
    let mut bus = IntentBus::new();
    assert_eq!(bus_self_test(&mut bus), Some(42));
    let log = bus.audit_snapshot(10);
    assert_eq!(log.len(), 1);
    assert_eq!(log[0].semantic_type, "test.ping");
    assert_eq!(log[0].sender, "test-sender");
}

#[test]
fn glass_box_self_test_publishes_booting() {
    let mut bus = IntentBus::new();
    let names = subscriptions(Component::GlassBox);
    let g = bus.connect("glass-box", &names);
    glass_box_self_test(&mut bus);
    let update = g.try_recv(&mut bus).unwrap().decode::<GlassBoxUpdate>().unwrap();
    assert_eq!((update.module.as_str(), update.key.as_str(), update.value.as_str()), ("kernel", "status", "booting"));
}

#[test]
fn components_listen_to_their_intents() {
    assert_eq!(subscriptions(Component::Echo), vec!["system.heartbeat"]);
    assert!(subscriptions(Component::Heartbeat).is_empty());
    assert_eq!(subscriptions(Component::PrimaryAgent).len(), 5);
    let answer = SemanticType::new("inference.generate.response");
    assert!(subscriptions(Component::PrimaryAgent).iter().any(|p| answer.matches(p)));
    assert!(!is_registered(Component::Network, false));
    assert!(is_registered(Component::Network, true));
    assert!(is_registered(Component::Echo, false));
}

#[test]
fn newest_matching_intents_are_received_in_order() {
    let mut bus = IntentBus::new();
    let conn = bus.connect("listener", &["a", "a.b", "c"]);
    for i in 0..100u8 {
        bus.send(plain("a.b", &[i]));
        bus.send(plain("other", &[i]));
    }
    for i in 100 - INBOX_CAPACITY as u8..100 {
        let intent = conn.try_recv(&mut bus).unwrap();
        assert_eq!((intent.semantic_type.as_str(), intent.payload), ("a.b", vec![i]));
    }
    assert!(conn.try_recv(&mut bus).is_none());
}

#[test]
fn order_holds_within_a_priority() {
    let mut bus = IntentBus::new();
    let conn = bus.connect("listener", &["a"]);
    for i in 0..4u8 {
        let mut intent = plain("a", &[i]);
        intent.priority = if i % 2 == 0 { IntentPriority::Normal } else { IntentPriority::High };
        bus.send(intent);
    }
    let order: Vec<u8> = (0..4).map(|_| conn.try_recv(&mut bus).unwrap().payload[0]).collect();
    assert_eq!(order, vec![1, 3, 0, 2]);
}

#[test]
fn components_are_registered_in_order() {
    let order = boot_order();
    assert_eq!(order.len(), 13);
    assert!(order[0] == Component::GlassBox && order[3] == Component::Network && order[12] == Component::PrimaryAgent);
    let names: Vec<&str> = order.iter().map(|c| component_name(*c)).collect();
    assert_eq!(
        names,
        vec![
            "glass-box",
            "heartbeat",
            "echo",
            "network-agent",
            "inference-engine",
            "settings-handler",
            "hello-module",
            "settings-module",
            "keyboard-bridge",
            "display-module",
            "input-module",
            "storage-module",
            "primary-agent",
        ]
    );
}
