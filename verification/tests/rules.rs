use chisel::component::spatial::Velocity;
use chisel::ecs::entity::Entity;
use chisel::ecs::world::World;
use chisel::event::payload::{entity_value, DomainEvent, MarkerEvent};
use chisel::json::{JsonMap, JsonNumber, JsonValue};
use chisel::math::{F32Bits, Scalar, Vec2};
use chisel::runtime::rules::model::{
    Action, EntityMatch, MatchSpec, ParamId, ReverseAxis, Rule, RuleId, RuleSet,
};
use chisel::runtime::rules::system::RuleProcessor;

type TestWorld = World<F32Bits, ()>;

fn v(x: f32, y: f32) -> Vec2<F32Bits> {
    Vec2::new(F32Bits(x.to_bits()), F32Bits(y.to_bits()))
}

fn number(x: f32) -> JsonValue {
    JsonValue::Number(JsonNumber::Float((x as f64).to_bits()))
}

fn normal(x: f32, y: f32) -> JsonValue {
    let mut m = JsonMap::new();
    m.insert("x".to_owned(), number(x));
    m.insert("y".to_owned(), number(y));
    JsonValue::Object(m)
}

fn string(s: &str) -> JsonValue {
    JsonValue::String(s.to_owned())
}

fn velocity_of(world: &TestWorld, e: Entity) -> Option<Vec2<F32Bits>> {
    world.get::<Velocity<F32Bits>>(e).map(|velocity| velocity.0)
}

fn params(names: &[&str]) -> MatchSpec {
    MatchSpec {
        params: names.iter().map(|n| n.to_string()).collect(),
        filters: names.iter().map(|_| EntityMatch::any()).collect(),
    }
}

fn member<'a>(value: &'a JsonValue, key: &str) -> Option<&'a JsonValue> {
    match value {
        JsonValue::Object(m) => m.get(key),
        _ => None,
    }
}

#[test]
fn process_drains_and_forwards_domain_events() {
    let mut world: TestWorld = World::new();
    world.event_queue_mut().emit_domain(DomainEvent::tick());
    let processor = RuleProcessor::new(RuleSet::new());

    let (domain, markers) = processor.process(&mut world, 16);

    assert!(world.event_queue().is_empty());
    assert_eq!(domain.len(), 1);
    assert_eq!(domain[0].name, "tick");
    assert!(markers.is_empty());
}

#[test]
fn process_drains_and_forwards_marker_events() {
    let mut world: TestWorld = World::new();
    let entity = world.spawn().finish();
    world.event_queue_mut().emit_marker(MarkerEvent::Reached {
        entity,
        marker: "landed".into(),
    });
    let processor = RuleProcessor::new(RuleSet::new());

    let (_, markers) = processor.process(&mut world, 16);

    assert!(world.event_queue().is_empty());
    assert_eq!(markers.len(), 1);
    match &markers[0] {
        MarkerEvent::Reached {
            entity: actual,
            marker,
        } => {
            assert_eq!(*actual, entity);
            assert_eq!(marker, "landed");
        }
    }
}

#[test]
fn process_drains_events_without_subscribers() {
    let mut world: TestWorld = World::new();
    let entity = world.spawn().finish();
    {
        let queue = world.event_queue_mut();
        queue.emit_domain(DomainEvent::tick());
        queue.emit_marker(MarkerEvent::Reached {
            entity,
            marker: "landed".into(),
        });
    }
    let processor = RuleProcessor::new(RuleSet::new());

    processor.process(&mut world, 16);

    assert!(world.event_queue().is_empty());
}

#[test]
fn process_preserves_domain_fifo_order() {
    let mut world: TestWorld = World::new();
    {
        let queue = world.event_queue_mut();
        queue.emit_domain(DomainEvent::custom("first".into(), JsonMap::new()));
        queue.emit_domain(DomainEvent::custom("second".into(), JsonMap::new()));
    }
    let processor = RuleProcessor::new(RuleSet::new());

    let (domain, _) = processor.process(&mut world, 16);

    assert_eq!(domain[0].name, "first");
    assert_eq!(domain[1].name, "second");
}

#[test]
fn process_runs_matching_set_velocity_rule() {
    let mut world: TestWorld = World::new();
    let target = world.spawn().with(Velocity(v(0.0, 0.0))).finish();
    let other = world.spawn().finish();
    world
        .event_queue_mut()
        .emit_domain(DomainEvent::collision(target, other, normal(1.0, 0.0)));

    let mut rules = RuleSet::new();
    rules.add(Rule {
        id: RuleId("set-speed".into()),
        event_name: "collision".into(),
        match_spec: params(&["a"]),
        actions: vec![Action::SetVelocity {
            target: ParamId(0),
            velocity: v(4.0, -2.0),
        }],
    });
    let processor = RuleProcessor::new(rules);

    processor.process(&mut world, 16);

    assert_eq!(velocity_of(&world, target), Some(v(4.0, -2.0)));
}

#[test]
fn process_skips_rule_when_required_tag_is_missing() {
    let mut world: TestWorld = World::new();
    let ball = world
        .tag_registry_mut()
        .intern("Ball")
        .expect("tag should intern");
    let target = world.spawn().with(Velocity(v(0.0, 0.0))).finish();
    let other = world.spawn().finish();
    world
        .event_queue_mut()
        .emit_domain(DomainEvent::collision(target, other, normal(1.0, 0.0)));

    let mut rules = RuleSet::new();
    rules.add(Rule {
        id: RuleId("require-ball".into()),
        event_name: "collision".into(),
        match_spec: MatchSpec {
            params: vec!["a".into()],
            filters: vec![EntityMatch {
                required: vec![ball],
                forbidden: Vec::new(),
            }],
        },
        actions: vec![Action::SetVelocity {
            target: ParamId(0),
            velocity: v(4.0, -2.0),
        }],
    });
    let processor = RuleProcessor::new(rules);

    processor.process(&mut world, 16);

    assert_eq!(velocity_of(&world, target), Some(v(0.0, 0.0)));
}

#[test]
fn process_reverses_velocity_from_collision_normal() {
    let mut world: TestWorld = World::new();
    let target = world.spawn().with(Velocity(v(3.0, 4.0))).finish();
    let other = world.spawn().finish();
    world
        .event_queue_mut()
        .emit_domain(DomainEvent::collision(target, other, normal(1.0, 0.0)));

    let mut rules = RuleSet::new();
    rules.add(Rule {
        id: RuleId("bounce".into()),
        event_name: "collision".into(),
        match_spec: params(&["a"]),
        actions: vec![Action::ReverseVelocity {
            target: ParamId(0),
            axis: ReverseAxis::FromNormal,
        }],
    });
    let processor = RuleProcessor::new(rules);

    processor.process(&mut world, 16);

    assert_eq!(velocity_of(&world, target), Some(v(-3.0, 4.0)));
}

#[test]
fn process_emits_failure_event_and_continues_other_rules() {
    let mut world: TestWorld = World::new();
    let missing_velocity = world.spawn().finish();
    let valid_target = world.spawn().with(Velocity(v(0.0, 0.0))).finish();
    world.event_queue_mut().emit_domain(DomainEvent::collision(
        missing_velocity,
        valid_target,
        normal(1.0, 0.0),
    ));

    let mut rules = RuleSet::new();
    rules.add(Rule {
        id: RuleId("bad-rule".into()),
        event_name: "collision".into(),
        match_spec: params(&["a", "b"]),
        actions: vec![Action::SetVelocity {
            target: ParamId(0),
            velocity: v(1.0, 1.0),
        }],
    });
    rules.add(Rule {
        id: RuleId("good-rule".into()),
        event_name: "collision".into(),
        match_spec: params(&["a", "b"]),
        actions: vec![Action::SetVelocity {
            target: ParamId(1),
            velocity: v(7.0, 8.0),
        }],
    });
    let processor = RuleProcessor::new(rules);

    let (domain, _) = processor.process(&mut world, 16);

    let collision = &domain[0];
    let failure = &domain[1];
    assert_eq!(collision.name, "collision");
    assert_eq!(failure.name, "rule_action_failed");
    assert_eq!(failure.payload.get("rule"), Some(&string("bad-rule")));
    assert_eq!(
        failure.payload.get("action_index"),
        Some(&JsonValue::Number(JsonNumber::PosInt(0)))
    );
    assert_eq!(
        failure.payload.get("reason"),
        Some(&string(
            "velocity component missing on entity Entity { index: 0, generation: 0 }"
        ))
    );
    assert_eq!(velocity_of(&world, valid_target), Some(v(7.0, 8.0)));
}

#[test]
fn process_emits_domain_event_with_bound_entities() {
    let mut world: TestWorld = World::new();
    let actor = world.spawn().finish();
    let other = world.spawn().finish();
    world
        .event_queue_mut()
        .emit_domain(DomainEvent::collision(actor, other, normal(1.0, 0.0)));

    let mut nested = JsonMap::new();
    nested.insert("actor".into(), string("$a"));
    let mut payload = JsonMap::new();
    payload.insert("who".into(), string("$a"));
    payload.insert("other".into(), string("$b"));
    payload.insert("label".into(), string("wall_hit"));
    payload.insert("nested".into(), JsonValue::Object(nested));
    payload.insert(
        "items".into(),
        JsonValue::Array(vec![string("$b"), string("literal")]),
    );

    let mut rules = RuleSet::new();
    rules.add(Rule {
        id: RuleId("emit-bounced".into()),
        event_name: "collision".into(),
        match_spec: params(&["a", "b"]),
        actions: vec![Action::Emit {
            event: "bounced".into(),
            payload: JsonValue::Object(payload),
        }],
    });
    let processor = RuleProcessor::new(rules);

    let (domain, _) = processor.process(&mut world, 16);

    let collision = &domain[0];
    let emitted = &domain[1];
    assert_eq!(collision.name, "collision");
    assert_eq!(emitted.name, "bounced");
    assert_eq!(emitted.payload.get("who"), Some(&entity_value(actor)));
    assert_eq!(
        member(emitted.payload.get("nested").expect("nested"), "actor"),
        Some(&entity_value(actor))
    );
    match emitted.payload.get("items") {
        Some(JsonValue::Array(items)) => assert_eq!(items[0], entity_value(other)),
        other => panic!("unexpected items: {other:?}"),
    }
    assert_eq!(emitted.payload.get("label"), Some(&string("wall_hit")));
}

#[test]
fn process_reports_unknown_emit_binding_and_unbound_param() {
    let mut world: TestWorld = World::new();
    world
        .event_queue_mut()
        .emit_domain(DomainEvent::custom("ping".into(), JsonMap::new()));
    let mut payload = JsonMap::new();
    payload.insert("who".into(), string("$nobody"));
    let mut rules = RuleSet::new();
    rules.add(Rule {
        id: RuleId("bad-emit".into()),
        event_name: "ping".into(),
        match_spec: params(&[]),
        actions: vec![Action::Emit {
            event: "pong".into(),
            payload: JsonValue::Object(payload),
        }],
    });
    rules.add(Rule {
        id: RuleId("unbound".into()),
        event_name: "ping".into(),
        match_spec: params(&[]),
        actions: vec![Action::Despawn {
            target: ParamId(3),
        }, Action::SetVelocity {
            target: ParamId(12),
            velocity: v(0.0, 0.0),
        }],
    });
    let processor = RuleProcessor::new(rules);

    let (domain, _) = processor.process(&mut world, 16);

    assert_eq!(domain.len(), 3);
    assert_eq!(
        domain[1].payload.get("reason"),
        Some(&string("unknown emit binding \"$nobody\""))
    );
    assert_eq!(domain[2].payload.get("rule"), Some(&string("unbound")));
    assert_eq!(
        domain[2].payload.get("reason"),
        Some(&string("action not implemented"))
    );
}

#[test]
fn process_reports_unbound_target_param_and_missing_normal() {
    let mut world: TestWorld = World::new();
    let ball = world.spawn().with(Velocity(v(1.0, 1.0))).finish();
    let mut payload = JsonMap::new();
    payload.insert("a".into(), entity_value(ball));
    world
        .event_queue_mut()
        .emit_domain(DomainEvent::custom("hit".into(), payload));
    let mut rules = RuleSet::new();
    rules.add(Rule {
        id: RuleId("far".into()),
        event_name: "hit".into(),
        match_spec: params(&["a"]),
        actions: vec![Action::SetVelocity {
            target: ParamId(12),
            velocity: v(0.0, 0.0),
        }],
    });
    rules.add(Rule {
        id: RuleId("flip".into()),
        event_name: "hit".into(),
        match_spec: params(&["a"]),
        actions: vec![
            Action::ReverseVelocity {
                target: ParamId(0),
                axis: ReverseAxis::Both,
            },
            Action::ReverseVelocity {
                target: ParamId(0),
                axis: ReverseAxis::FromNormal,
            },
        ],
    });
    let processor = RuleProcessor::new(rules);

    let (domain, _) = processor.process(&mut world, 16);

    assert_eq!(
        domain[1].payload.get("reason"),
        Some(&string("param 12 is not bound"))
    );
    assert_eq!(
        domain[2].payload.get("action_index"),
        Some(&JsonValue::Number(JsonNumber::PosInt(1)))
    );
    assert_eq!(
        domain[2].payload.get("reason"),
        Some(&string("normal missing or malformed"))
    );
    // the first action of "flip" ran before the second failed
    assert_eq!(velocity_of(&world, ball), Some(v(-1.0, -1.0)));
}

#[test]
fn process_drains_every_event_whatever_the_iteration_cap() {
    let mut world: TestWorld = World::new();
    {
        let queue = world.event_queue_mut();
        for name in ["one", "two", "three"] {
            queue.emit_domain(DomainEvent::custom(name.into(), JsonMap::new()));
        }
    }
    let processor = RuleProcessor::new(RuleSet::new());

    let (domain, _) = processor.process(&mut world, 2);

    assert_eq!(domain.len(), 3);
    assert_eq!(domain[1].name, "two");
    assert_eq!(domain[2].name, "three");
    assert!(world.event_queue().is_empty());
}

#[test]
fn cascading_emits_are_processed_in_the_same_drain() {
    let mut world: TestWorld = World::new();
    world
        .event_queue_mut()
        .emit_domain(DomainEvent::custom("start".into(), JsonMap::new()));
    let mut rules = RuleSet::new();
    rules.add(Rule {
        id: RuleId("chain".into()),
        event_name: "start".into(),
        match_spec: params(&[]),
        actions: vec![Action::Emit {
            event: "next".into(),
            payload: JsonValue::Object(JsonMap::new()),
        }],
    });
    assert_eq!(rules.len(), 1);
    assert_eq!(rules.rules_for("start").len(), 1);
    assert!(rules.rules_for("other").is_empty());
    let processor = RuleProcessor::new(rules);

    let (domain, _) = processor.process(&mut world, 16);

    assert_eq!(domain.len(), 2);
    assert_eq!(domain[1].name, "next");
}

#[test]
fn negation_flips_only_the_sign_bit() {
    assert_eq!(F32Bits(3.0f32.to_bits()).neg(), F32Bits((-3.0f32).to_bits()));
    assert_eq!(F32Bits(0.0f32.to_bits()).neg(), F32Bits((-0.0f32).to_bits()));
    assert!(F32Bits::number_is_zero(&JsonNumber::Float(0.0f64.to_bits())));
    assert!(F32Bits::number_is_zero(&JsonNumber::Float((-0.0f64).to_bits())));
    assert!(F32Bits::number_is_zero(&JsonNumber::Float(1e-46f64.to_bits())));
    assert_eq!((1e-46f64 as f32), 0.0);
    assert!(!F32Bits::number_is_zero(&JsonNumber::Float(1e-44f64.to_bits())));
    assert_ne!((1e-44f64 as f32), 0.0);
    assert!(!F32Bits::number_is_zero(&JsonNumber::PosInt(1)));
    assert!(F32Bits::number_is_zero(&JsonNumber::PosInt(0)));
}

#[test]
fn reverse_axis_defaults_to_both() {
    assert_eq!(ReverseAxis::default(), ReverseAxis::Both);
}
