use chisel::component::spatial::{Position, Velocity};
use chisel::ecs::entity::Entity;
use chisel::ecs::world::World;
use chisel::event::channel::Channel;
use chisel::event::payload::{AckStatus, CommandAckEvent, CommandEvent, InputEvent};
use chisel::json::{JsonMap, JsonNumber, JsonValue};
use chisel::math::{F32Bits, Vec2};
use chisel::runtime::bootstrap::{
    add_template, check_engine, check_scene_name, check_schema_version, component_slot,
    domain_event_from_value, spawn_scene, template_from_parts, BootstrapError, ComponentSlot,
    ComponentValue, SceneEntity,
};
use chisel::runtime::compile::{compile_project, DiagnosticLevel};
use chisel::runtime::run::{
    parse_jsonl_line, plan_cli, plan_command, route_line, CliCommand, CliPlan, CommandPlan,
    LineRoute,
};
use chisel::runtime::schema::game::{
    default_engine_name, default_main_scene, default_tick_rate, GameSchema, PhysicsSchema,
    WorldSchema,
};
use chisel::runtime::schema::paths::ManifestPaths;
use chisel::runtime::snapshot::{snapshot_world, SnapshotEvent};
use chisel::runtime::template::{Template, TemplateStore};
use chisel::text::{push_decimal, sort_by_key, str_less};

fn f(x: f32) -> F32Bits {
    F32Bits(x.to_bits())
}

fn v(x: f32, y: f32) -> Vec2<F32Bits> {
    Vec2::new(f(x), f(y))
}

fn string(s: &str) -> JsonValue {
    JsonValue::String(s.to_owned())
}

fn game(version: u32, engine: &str) -> GameSchema<F32Bits> {
    GameSchema {
        schema_version: version,
        main_scene: default_main_scene(),
        world: WorldSchema {
            tick_rate: default_tick_rate(),
        },
        physics: PhysicsSchema {
            engine: engine.into(),
            gravity: None,
        },
    }
}

#[test]
fn game_manifest_checks() {
    assert!(check_schema_version(&game(1, "aabb")).is_ok());
    assert!(matches!(
        check_schema_version(&game(2, "aabb")),
        Err(BootstrapError::UnsupportedSchemaVersion(2))
    ));
    assert!(check_engine(&game(1, "aabb")).is_ok());
    match check_engine(&game(1, "rapier")) {
        Err(BootstrapError::UnsupportedEngine(name)) => assert_eq!(name, "rapier"),
        other => panic!("unexpected: {other:?}"),
    }
    let default_physics: PhysicsSchema<F32Bits> = PhysicsSchema::default();
    assert_eq!(default_physics.engine, "");
    assert_eq!(WorldSchema::default().tick_rate, 0);
    assert_eq!(default_engine_name(), "aabb");
    assert!(check_scene_name(&"main".to_string(), &"main".to_string()).is_ok());
    assert!(matches!(
        check_scene_name(&"main".to_string(), &"other".to_string()),
        Err(BootstrapError::SceneNameMismatch { .. })
    ));
}

#[test]
fn component_names_and_templates() {
    assert_eq!(component_slot(&"aabb".to_string()).ok(), Some(ComponentSlot::Aabb));
    assert!(matches!(
        component_slot(&"sprite".to_string()),
        Err(BootstrapError::UnknownComponent(name)) if name == "sprite"
    ));

    let mut world: World<F32Bits, ()> = World::new();
    let template = template_from_parts(
        "Ball".into(),
        &vec!["Ball".to_string(), "Bouncy".to_string(), "Ball".to_string()],
        vec![
            ComponentValue::Position(Position(v(1.0, 2.0))),
            ComponentValue::Velocity(Velocity(v(3.0, 0.0))),
            ComponentValue::Position(Position(v(5.0, 6.0))),
        ],
        world.tag_registry_mut(),
    )
    .expect("template");
    assert_eq!(template.name, "Ball");
    assert_eq!(template.tags.len(), 2);
    assert_eq!(template.position.map(|p| p.0), Some(v(5.0, 6.0)));
    assert_eq!(template.velocity.map(|p| p.0), Some(v(3.0, 0.0)));
    assert_eq!(world.tag_registry().len(), 2);

    let mut store = TemplateStore::new();
    add_template(&mut store, template.clone()).expect("first");
    assert!(matches!(
        add_template(&mut store, Template::named("Ball".into())),
        Err(BootstrapError::DuplicateTemplate(name)) if name == "Ball"
    ));
    assert_eq!(store.len(), 1);
    assert_eq!(store.get("Ball").map(|t| t.tags), Some(template.tags));
    assert!(store.get("Wall").is_none());
}

#[test]
fn spawn_scene_instantiates_templates_and_queues_initial_events() {
    let mut world: World<F32Bits, ()> = World::new();
    let mut ball = Template::named("Ball".into());
    ball.velocity = Some(Velocity(v(1.0, 0.0)));
    let mut store = TemplateStore::new();
    store.insert(ball);

    let mut start = JsonMap::new();
    start.insert("type".into(), string("game_started"));
    start.insert("level".into(), JsonValue::Number(JsonNumber::PosInt(1)));

    spawn_scene(
        &mut world,
        vec![SceneEntity {
            template: "Ball".into(),
            overrides: vec![ComponentValue::Position(Position(v(9.0, 9.0)))],
        }],
        vec![JsonValue::Object(start)],
        &store,
    )
    .expect("scene");

    let entities = world.entities();
    assert_eq!(entities.len(), 1);
    assert_eq!(
        world.get::<Position<F32Bits>>(entities[0]).map(|p| p.0),
        Some(v(9.0, 9.0))
    );
    assert_eq!(
        world.get::<Velocity<F32Bits>>(entities[0]).map(|p| p.0),
        Some(v(1.0, 0.0))
    );
    let event = world.event_queue_mut().next_domain().expect("queued");
    assert_eq!(event.name, "game_started");
    assert_eq!(event.payload.get("type"), None);
    assert_eq!(
        event.payload.get("level"),
        Some(&JsonValue::Number(JsonNumber::PosInt(1)))
    );

    let error = spawn_scene(
        &mut world,
        vec![SceneEntity {
            template: "Ghost".into(),
            overrides: Vec::new(),
        }],
        Vec::new(),
        &store,
    )
    .expect_err("unknown template");
    assert!(matches!(error, BootstrapError::UnknownTemplate(name) if name == "Ghost"));
}

#[test]
fn initial_events_must_be_objects_with_string_type() {
    assert!(matches!(
        domain_event_from_value(JsonValue::Null),
        Err(BootstrapError::InitialEventNotObject)
    ));
    assert!(matches!(
        domain_event_from_value(JsonValue::Object(JsonMap::new())),
        Err(BootstrapError::InitialEventMissingType)
    ));
    let mut m = JsonMap::new();
    m.insert("type".into(), JsonValue::Bool(true));
    assert!(matches!(
        domain_event_from_value(JsonValue::Object(m)),
        Err(BootstrapError::InitialEventTypeNotString)
    ));
}

#[test]
fn snapshot_lists_live_entities_between_markers() {
    let mut world: World<F32Bits, ()> = World::new();
    let ball = world.tag_registry_mut().intern("Ball").expect("tag");
    let wall = world.tag_registry_mut().intern("Wall").expect("tag");
    let mut tags = chisel::tag::set::TagSet::new();
    tags.insert(wall);
    tags.insert(ball);
    let first = world.spawn().with(tags).with(Position(v(1.0, 2.0))).finish();
    let dead = world.spawn().finish();
    world.despawn(dead).expect("alive");

    let events = snapshot_world(&world, 21);

    assert_eq!(events.len(), 3);
    assert!(matches!(events[0], SnapshotEvent::BeginSnapshot { tick: 21 }));
    match &events[1] {
        SnapshotEvent::Entity { entity, components } => {
            assert_eq!(*entity, first);
            assert_eq!(
                components.tags,
                Some(vec!["Ball".to_string(), "Wall".to_string()])
            );
            assert_eq!(components.position.map(|p| p.0), Some(v(1.0, 2.0)));
            assert!(components.velocity.is_none());
        }
        other => panic!("unexpected: {other:?}"),
    }
    assert!(matches!(events[2], SnapshotEvent::EndSnapshot));
}

#[test]
fn jsonl_lines_route_by_channel() {
    let mut line = JsonMap::new();
    line.insert("channel".into(), string("command"));
    line.insert("type".into(), string("step"));
    let (channel, rest) = parse_jsonl_line(JsonValue::Object(line)).expect("parses");
    assert_eq!(channel, Channel::Command);
    match &rest {
        JsonValue::Object(m) => {
            assert_eq!(m.get("channel"), None);
            assert_eq!(m.get("type"), Some(&string("step")));
        }
        other => panic!("unexpected: {other:?}"),
    }

    let mut domain = JsonMap::new();
    domain.insert("channel".into(), string("domain"));
    match route_line(JsonValue::Object(domain)) {
        LineRoute::Reject(m) => assert_eq!(m, "unsupported inbound channel Domain"),
        other => panic!("unexpected: {other:?}"),
    }
    match route_line(JsonValue::Null) {
        LineRoute::Reject(m) => assert_eq!(m, "JSONL line must be an object"),
        other => panic!("unexpected: {other:?}"),
    }
    match route_line(JsonValue::Object(JsonMap::new())) {
        LineRoute::Reject(m) => assert_eq!(m, "JSONL line must contain channel"),
        other => panic!("unexpected: {other:?}"),
    }
    let mut unknown = JsonMap::new();
    unknown.insert("channel".into(), string("telepathy"));
    match route_line(JsonValue::Object(unknown)) {
        LineRoute::Reject(m) => assert_eq!(m, "parse channel"),
        other => panic!("unexpected: {other:?}"),
    }
    let mut input = JsonMap::new();
    input.insert("channel".into(), string("input"));
    assert!(matches!(route_line(JsonValue::Object(input)), LineRoute::Input(_)));
    assert_eq!(Channel::CommandAck.wire_name(), "command-ack");
    assert_eq!(Channel::from_wire_name("command-ack"), Some(Channel::CommandAck));
}

#[test]
fn commands_plan_and_acknowledge() {
    assert!(matches!(
        plan_command(CommandEvent::Step { count: 3 }),
        CommandPlan::Step { count: 3 }
    ));
    assert!(matches!(
        plan_command(CommandEvent::Inspect { query: None }),
        CommandPlan::Snapshot
    ));
    match plan_command(CommandEvent::Inspect {
        query: Some("x".into()),
    }) {
        CommandPlan::Reject { message } => {
            assert_eq!(message, "inspect query is not implemented yet")
        }
        other => panic!("unexpected: {other:?}"),
    }
    match plan_command(CommandEvent::Save) {
        CommandPlan::Reject { message } => assert_eq!(message, "command is not implemented yet"),
        other => panic!("unexpected: {other:?}"),
    }
    assert!(matches!(
        plan_command(CommandEvent::SimulateInput {
            event: InputEvent::KeyPress { key: "A".into() }
        }),
        CommandPlan::SimulateInput { .. }
    ));
    let ack = CommandAckEvent::success();
    assert_eq!(ack.status, AckStatus::Success);
    assert!(ack.message.is_none());
    let err = CommandAckEvent::error("nope".into());
    assert_eq!(err.status, AckStatus::Error);
    assert_eq!(err.message.as_deref(), Some("nope"));
}

#[test]
fn cli_invocations_plan() {
    let run: CliCommand<F32Bits> = CliCommand::Run {
        root: ".".into(),
        dt: f(0.016),
        max_ticks: None,
    };
    assert_eq!(
        plan_cli(run).err().as_deref(),
        Some("--max-ticks is required for v0 run")
    );
    let run: CliCommand<F32Bits> = CliCommand::Run {
        root: "game".into(),
        dt: f(0.5),
        max_ticks: Some(4),
    };
    assert!(matches!(
        plan_cli(run),
        Ok(CliPlan::Run { ticks: 4, .. })
    ));
    let new: CliCommand<F32Bits> = CliCommand::New { dir: "x".into() };
    assert_eq!(
        plan_cli(new).err().as_deref(),
        Some("command is not implemented yet")
    );
    let inspect: CliCommand<F32Bits> = CliCommand::Inspect {
        root: ".".into(),
        query: Some("q".into()),
    };
    assert_eq!(
        plan_cli(inspect).err().as_deref(),
        Some("inspect query is not implemented yet")
    );
}

#[test]
fn compile_reports_note_or_error() {
    let ok = compile_project("example/ball_collision", Ok(()));
    assert!(!ok.has_errors());
    assert_eq!(ok.diagnostics().len(), 1);
    assert_eq!(ok.diagnostics()[0].level, DiagnosticLevel::Note);
    assert_eq!(ok.diagnostics()[0].code, "compile-ok");
    assert_eq!(
        ok.diagnostics()[0].message,
        "project compiled: example/ball_collision"
    );
    let failed = compile_project("x", Err("read manifest x/game.toml: missing".into()));
    assert!(failed.has_errors());
    assert_eq!(failed.diagnostics()[0].code, "compile-failed");
    assert_eq!(
        failed.diagnostics()[0].message,
        "read manifest x/game.toml: missing"
    );
}

#[test]
fn manifest_paths_join_under_root() {
    let paths = ManifestPaths::from_root("game");
    assert_eq!(paths.root, "game");
    assert_eq!(paths.game_toml, "game/game.toml");
    assert_eq!(paths.entities_dir, "game/entities");
    assert_eq!(paths.scenes_dir, "game/scenes");
    assert_eq!(paths.rules_dir, "game/rules");
    assert_eq!(paths.input_toml, "game/input.toml");
    assert_eq!(ManifestPaths::from_root("game/").game_toml, "game/game.toml");
    assert_eq!(ManifestPaths::from_root("").rules_dir, "rules");
}

#[test]
fn text_helpers() {
    let mut s = String::from("n=");
    push_decimal(&mut s, 0);
    push_decimal(&mut s, 4_294_967_295);
    assert_eq!(s, "n=04294967295");
    assert!(str_less("a", "b"));
    assert!(str_less("ab", "abc"));
    assert!(!str_less("b", "ab"));
    assert!(!str_less("same", "same"));
    let sorted = sort_by_key(vec![
        ("wall".to_string(), 1),
        ("ball".to_string(), 2),
        ("Zed".to_string(), 3),
    ]);
    let keys: Vec<&str> = sorted.iter().map(|(k, _)| k.as_str()).collect();
    assert_eq!(keys, vec!["Zed", "ball", "wall"]);
    assert_eq!(sorted[1].1, 2);
}

#[test]
fn error_messages_render_names_quoted() {
    let e = Entity {
        index: 3,
        generation: 1,
    };
    assert_eq!(
        chisel::ecs::error::CoreError::EntityNotFound(e).message(),
        "entity Entity { index: 3, generation: 1 } not found or generation mismatch"
    );
    assert_eq!(
        chisel::ecs::error::CoreError::ComponentMissing {
            entity: e,
            component: "Velocity"
        }
        .message(),
        "component Velocity missing on entity Entity { index: 3, generation: 1 }"
    );
    assert_eq!(
        chisel::ecs::error::CoreError::TagsFull(128).message(),
        "tag namespace full (128 interned, cap is 128)"
    );
    assert_eq!(chisel::event::bus::BusError::Lagged(7).message(), "subscriber lagged by 7 messages");
    assert_eq!(chisel::event::bus::BusError::Closed.message(), "bus closed");
    assert_eq!(
        BootstrapError::UnknownTemplate("Ba\"ll".into()).message(),
        "unknown template \"Ba\\\"ll\""
    );
    assert_eq!(
        BootstrapError::SceneNameMismatch {
            expected: "main".into(),
            found: "other".into()
        }
        .message(),
        "scene file for \"main\" declared scene \"other\""
    );
    assert_eq!(
        BootstrapError::UnsupportedSchemaVersion(2).message(),
        "unsupported schema_version 2; expected 1"
    );
    assert_eq!(
        BootstrapError::InitialEventMissingType.message(),
        "initial event object must contain string field \"type\""
    );
}
