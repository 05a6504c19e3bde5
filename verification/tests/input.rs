use chisel::ecs::world::World;
use chisel::event::payload::{entity_value, InputEvent};
use chisel::json::{JsonMap, JsonNumber, JsonValue};
use chisel::math::F32Bits;
use chisel::runtime::input::{
    convert_input_map, InputEmit, InputMap, InputMapError, InputMapper, InputTrigger,
};
use chisel::runtime::rules::model::{EntityMatch, MatchSpec};
use chisel::runtime::schema::input::{InputEmitSchema, InputMapSchema, InputTriggerSchema};
use chisel::runtime::schema::rule::EntityMatchSchema;
use chisel::tag::set::TagSet;

fn press(key: &str) -> InputEvent {
    InputEvent::KeyPress { key: key.into() }
}

fn string(s: &str) -> JsonValue {
    JsonValue::String(s.to_owned())
}

#[test]
fn trigger_matches_kind_and_key() {
    let t = InputTrigger::KeyPress { key: "Space".into() };
    assert!(t.matches(&press("Space")));
    assert!(!t.matches(&press("Enter")));
    assert!(!t.matches(&InputEvent::KeyRelease {
        key: "Space".into()
    }));
}

#[test]
fn map_binds_distinct_tagged_entities_and_substitutes_payload() {
    let mut world: World<F32Bits, ()> = World::new();
    let ball_tag = world.tag_registry_mut().intern("Ball").expect("tag");
    let mut tags = TagSet::new();
    tags.insert(ball_tag);
    let _untagged = world.spawn().finish();
    let first = world.spawn().with(tags).finish();
    let second = world.spawn().with(tags).finish();

    let mut payload = JsonMap::new();
    payload.insert("actor".into(), string("$a"));
    payload.insert("other".into(), string("$b"));
    payload.insert("source".into(), string("keyboard"));
    let filter = || EntityMatch {
        required: vec![ball_tag],
        forbidden: Vec::new(),
    };
    let mapper = InputMapper::new(vec![
        InputMap {
            trigger: InputTrigger::KeyPress { key: "Space".into() },
            match_spec: MatchSpec {
                params: vec!["a".into(), "b".into()],
                filters: vec![filter(), filter()],
            },
            emit: InputEmit {
                event: "ball_input".into(),
                payload: JsonValue::Object(payload),
            },
        },
        InputMap {
            trigger: InputTrigger::KeyRelease { key: "Space".into() },
            match_spec: MatchSpec {
                params: Vec::new(),
                filters: Vec::new(),
            },
            emit: InputEmit {
                event: "released".into(),
                payload: JsonValue::Object(JsonMap::new()),
            },
        },
    ]);

    let events = mapper.map(&world, &press("Space")).expect("maps");

    assert_eq!(events.len(), 1);
    assert_eq!(events[0].name, "ball_input");
    assert_eq!(events[0].payload.get("actor"), Some(&entity_value(first)));
    assert_eq!(events[0].payload.get("other"), Some(&entity_value(second)));
    assert_eq!(events[0].payload.get("source"), Some(&string("keyboard")));

    assert!(mapper.map(&world, &press("Enter")).expect("maps").is_empty());
}

#[test]
fn map_skips_when_not_enough_entities_and_reports_unknown_binding() {
    let mut world: World<F32Bits, ()> = World::new();
    let _only = world.spawn().finish();
    let any = || EntityMatch::any();
    let mut bad = JsonMap::new();
    bad.insert("who".into(), string("$ghost"));
    let mapper = InputMapper::new(vec![
        InputMap {
            trigger: InputTrigger::KeyPress { key: "A".into() },
            match_spec: MatchSpec {
                params: vec!["x".into(), "y".into()],
                filters: vec![any(), any()],
            },
            emit: InputEmit {
                event: "two".into(),
                payload: JsonValue::Object(JsonMap::new()),
            },
        },
        InputMap {
            trigger: InputTrigger::KeyPress { key: "A".into() },
            match_spec: MatchSpec {
                params: Vec::new(),
                filters: Vec::new(),
            },
            emit: InputEmit {
                event: "bad".into(),
                payload: JsonValue::Object(bad),
            },
        },
    ]);

    let error = mapper.map(&world, &press("A")).expect_err("unknown binding");

    assert_eq!(error, "unknown input binding \"$ghost\"");
}

#[test]
fn convert_input_map_defaults_payload_and_refuses_non_objects() {
    let mut world: World<F32Bits, ()> = World::new();
    let schema = InputMapSchema {
        trigger: InputTriggerSchema::KeyRelease { key: "Q".into() },
        match_spec: vec![(
            "who".into(),
            EntityMatchSchema {
                with: vec!["Player".into()],
                without: Vec::new(),
            },
        )],
        emit: InputEmitSchema {
            event_type: "quit".into(),
            payload: JsonValue::Null,
        },
    };
    let map = convert_input_map(schema, world.tag_registry_mut()).expect("loads");
    assert_eq!(map.emit.payload, JsonValue::Object(JsonMap::new()));
    assert_eq!(map.emit.event, "quit");
    assert_eq!(world.tag_registry().len(), 1);

    let bad = InputMapSchema {
        trigger: InputTriggerSchema::KeyPress { key: "Q".into() },
        match_spec: Vec::new(),
        emit: InputEmitSchema {
            event_type: "quit".into(),
            payload: JsonValue::Number(JsonNumber::PosInt(1)),
        },
    };
    assert!(matches!(
        convert_input_map(bad, world.tag_registry_mut()),
        Err(InputMapError::PayloadNotObject(_))
    ));
}
