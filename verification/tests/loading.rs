use chisel::ecs::error::CoreError;
use chisel::json::{JsonMap, JsonNumber, JsonValue};
use chisel::math::{F32Bits, Vec2};
use chisel::runtime::rules::load::{
    convert_match_spec, convert_rule, ActionError, MatchSpecError, RuleError,
};
use chisel::runtime::rules::model::{Action, ParamId, ReverseAxis, RuleId};
use chisel::runtime::schema::rule::{ActionSchema, EntityMatchSchema, RuleSchema};
use chisel::tag::id::TagId;
use chisel::tag::registry::TagRegistry;

fn f(x: f32) -> F32Bits {
    F32Bits(x.to_bits())
}

fn filter(with: &[&str], without: &[&str]) -> EntityMatchSchema {
    EntityMatchSchema {
        with: with.iter().map(|s| s.to_string()).collect(),
        without: without.iter().map(|s| s.to_string()).collect(),
    }
}

#[test]
fn rejects_rule_without_actions() {
    let mut registry = TagRegistry::new();
    let schema: RuleSchema<F32Bits> = RuleSchema {
        event: "collision".into(),
        match_spec: vec![("a".into(), filter(&["Ball"], &[]))],
        actions: Vec::new(),
    };

    let error = convert_rule(RuleId("empty-actions".into()), schema, &mut registry)
        .expect_err("rule should be invalid");

    assert!(matches!(error, RuleError::NoActions));
    assert!(registry.is_empty());
}

#[test]
fn rejects_action_referencing_unknown_match_param() {
    let mut registry = TagRegistry::new();
    let schema = RuleSchema {
        event: "collision".into(),
        match_spec: vec![("a".into(), filter(&["Ball"], &[]))],
        actions: vec![ActionSchema::SetVelocity {
            entity: "missing".into(),
            x: f(1.0),
            y: f(0.0),
        }],
    };

    let error = convert_rule(RuleId("unknown-param".into()), schema, &mut registry)
        .expect_err("rule should be invalid");

    match error {
        RuleError::Action {
            index: 0,
            error: ActionError::UnknownParam(name),
        } => assert_eq!(name, "missing"),
        other => panic!("unexpected error: {other:?}"),
    }
}

#[test]
fn rejects_emit_payload_that_is_not_an_object() {
    let mut registry = TagRegistry::new();
    let schema: RuleSchema<F32Bits> = RuleSchema {
        event: "collision".into(),
        match_spec: Vec::new(),
        actions: vec![ActionSchema::Emit {
            event: "bad".into(),
            payload: JsonValue::Number(JsonNumber::PosInt(7)),
        }],
    };

    let error = convert_rule(RuleId("bad-payload".into()), schema, &mut registry)
        .expect_err("rule should be invalid");

    match error {
        RuleError::Action {
            index: 0,
            error: ActionError::PayloadNotObject(value),
        } => assert_eq!(value, JsonValue::Number(JsonNumber::PosInt(7))),
        other => panic!("unexpected error: {other:?}"),
    }
}

#[test]
fn missing_emit_payload_defaults_to_empty_object() {
    let mut registry = TagRegistry::new();
    let schema: RuleSchema<F32Bits> = RuleSchema {
        event: "tick".into(),
        match_spec: Vec::new(),
        actions: vec![ActionSchema::Emit {
            event: "spawned".into(),
            payload: JsonValue::Null,
        }],
    };

    let rule = convert_rule(RuleId("default-payload".into()), schema, &mut registry)
        .expect("rule should load");

    assert_eq!(rule.event_name, "tick");
    match &rule.actions[0] {
        Action::Emit { event, payload } => {
            assert_eq!(event, "spawned");
            assert_eq!(payload, &JsonValue::Object(JsonMap::new()));
        }
        other => panic!("unexpected action: {other:?}"),
    }
}

#[test]
fn match_params_are_sorted_and_targets_follow_sorted_order() {
    let mut registry = TagRegistry::new();
    let schema = RuleSchema {
        event: "collision".into(),
        match_spec: vec![
            ("wall".into(), filter(&["Wall"], &[])),
            ("ball".into(), filter(&["Ball"], &["Ghost"])),
        ],
        actions: vec![
            ActionSchema::ReverseVelocity {
                entity: "ball".into(),
                axis: ReverseAxis::FromNormal,
            },
            ActionSchema::PlayAnimation {
                entity: "wall".into(),
                clip: "shake".into(),
                priority: 3,
            },
            ActionSchema::Spawn {
                template: "Spark".into(),
                position: Vec2::new(f(1.0), f(2.0)),
            },
        ],
    };

    let rule = convert_rule(RuleId("ball-bounce".into()), schema, &mut registry)
        .expect("rule should load");

    assert_eq!(rule.id.0, "ball-bounce");
    assert_eq!(rule.match_spec.params, vec!["ball".to_string(), "wall".to_string()]);
    // tags are interned in sorted parameter order: Ball, Ghost, then Wall
    assert_eq!(registry.lookup("Ball"), Some(TagId(0)));
    assert_eq!(registry.lookup("Ghost"), Some(TagId(1)));
    assert_eq!(registry.lookup("Wall"), Some(TagId(2)));
    assert_eq!(rule.match_spec.filters[0].required, vec![TagId(0)]);
    assert_eq!(rule.match_spec.filters[0].forbidden, vec![TagId(1)]);
    assert_eq!(rule.match_spec.filters[1].required, vec![TagId(2)]);
    assert!(matches!(
        rule.actions[0],
        Action::ReverseVelocity {
            target: ParamId(0),
            axis: ReverseAxis::FromNormal
        }
    ));
    assert!(matches!(
        rule.actions[1],
        Action::PlayAnimation {
            target: ParamId(1),
            priority: 3,
            ..
        }
    ));
}

#[test]
fn too_many_match_params_are_refused() {
    let mut registry = TagRegistry::new();
    let entries: Vec<(String, EntityMatchSchema)> = (0..256)
        .map(|i| (format!("p{i:03}"), filter(&[], &[])))
        .collect();

    let error = convert_match_spec(entries, &mut registry).expect_err("too many params");

    assert!(matches!(error, MatchSpecError::TooManyParams(256)));
}

#[test]
fn full_tag_namespace_fails_the_match_spec() {
    let mut registry = TagRegistry::new();
    for i in 0..128 {
        registry.intern(&format!("T{i}")).expect("fits");
    }
    let schema: RuleSchema<F32Bits> = RuleSchema {
        event: "collision".into(),
        match_spec: vec![("a".into(), filter(&["T0", "Extra"], &[]))],
        actions: vec![ActionSchema::Despawn { entity: "a".into() }],
    };

    let error = convert_rule(RuleId("full".into()), schema, &mut registry).expect_err("full");

    assert!(matches!(
        error,
        RuleError::MatchSpec(MatchSpecError::Tags(CoreError::TagsFull(128)))
    ));
}
