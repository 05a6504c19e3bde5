use chisel::ecs::entity::Entity;
use chisel::event::channel::Channel;
use chisel::event::payload::DomainEvent;
use chisel::json::{JsonMap, JsonNumber, JsonValue};

fn integer(n: u64) -> JsonValue {
    JsonValue::Number(JsonNumber::PosInt(n))
}

fn float(x: f64) -> JsonValue {
    JsonValue::Number(JsonNumber::Float(x.to_bits()))
}

fn object(members: Vec<(&str, JsonValue)>) -> JsonMap {
    let mut m = JsonMap::new();
    for (key, value) in members {
        m.insert(key.to_owned(), value);
    }
    m
}

fn unit_y() -> JsonValue {
    JsonValue::Object(object(vec![("x", float(0.0)), ("y", float(1.0))]))
}

#[test]
fn tick_event_serializes_as_domain_type_only() {
    let event = DomainEvent::tick();

    assert_eq!(Channel::Domain.wire_name(), "domain");
    assert_eq!(event.name, "tick");
    assert_eq!(event.payload, JsonMap::new());
}

#[test]
fn collision_event_serializes_entities_and_normal() {
    let a = Entity {
        index: 1,
        generation: 0,
    };
    let b = Entity {
        index: 2,
        generation: 3,
    };
    let event = DomainEvent::collision(a, b, unit_y());

    assert_eq!(event.name, "collision");
    assert_eq!(
        event.payload,
        object(vec![
            (
                "a",
                JsonValue::Object(object(vec![("index", integer(1)), ("generation", integer(0))]))
            ),
            (
                "b",
                JsonValue::Object(object(vec![("index", integer(2)), ("generation", integer(3))]))
            ),
            ("normal", unit_y()),
        ])
    );
}

#[test]
fn rule_action_failed_event_serializes_rule_failure_fields() {
    let event = DomainEvent::rule_action_failed("bounce", 2, "missing velocity");

    assert_eq!(event.name, "rule_action_failed");
    assert_eq!(
        event.payload,
        object(vec![
            ("rule", JsonValue::String("bounce".into())),
            ("action_index", integer(2)),
            ("reason", JsonValue::String("missing velocity".into())),
        ])
    );
}

#[test]
fn custom_event_preserves_name_and_object_payload() {
    let mut payload = JsonMap::new();
    payload.insert("score".into(), integer(7));
    payload.insert("label".into(), JsonValue::String("checkpoint".into()));

    let event = DomainEvent::custom("score_changed".into(), payload);

    assert_eq!(event.name, "score_changed");
    assert_eq!(event.payload.get("score"), Some(&integer(7)));
    assert_eq!(
        event.payload.get("label"),
        Some(&JsonValue::String("checkpoint".into()))
    );
    assert_eq!(event.payload.len(), 2);
}
