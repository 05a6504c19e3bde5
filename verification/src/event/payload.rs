use vstd::prelude::*;

use crate::ecs::entity::Entity;
use crate::json::{Json, JsonMap, JsonNumber, JsonValue};

verus! {

/// Raw player input. Keyboard only.
#[derive(Debug)]
pub enum InputEvent {
    KeyPress { key: String },
    KeyRelease { key: String },
}

/// Control-plane directive from the agent. Never visible to rules.
#[derive(Debug)]
pub enum CommandEvent {
    Step { count: u32 },
    Inspect { query: Option<String> },
    Save,
    Reload,
    Pause,
    Resume,
    SimulateInput { event: InputEvent },
}

/// "Something happened in the game world": the meaning lives in `name`,
/// all parameters in `payload`.
#[derive(Debug)]
pub struct DomainEvent {
    pub name: String,
    pub payload: JsonMap,
}

/// Animation milestone notifications.
#[derive(Debug)]
pub enum MarkerEvent {
    Reached { entity: Entity, marker: String },
}

/// Imperative presentation commands produced by the logic layer.
#[derive(Debug)]
pub enum PresentationCommand {
    PlayAnimation { entity: Entity, clip: String, priority: u8 },
}

/// The engine's reply to a `CommandEvent`.
#[derive(Debug)]
pub struct CommandAckEvent {
    pub command_id: Option<String>,
    pub status: AckStatus,
    pub message: Option<String>,
}

/// Outcome carried by a command acknowledgement.
#[derive(PartialEq, Eq, Structural, Debug)]
pub enum AckStatus {
    /// The command was carried out (`"ok"` on the wire).
    Success,
    /// The command was refused or failed (`"error"` on the wire).
    Error,
}

/// JSON form of an entity handle: `{ "index": .., "generation": .. }`.
pub open spec fn entity_json(e: Entity) -> Json {
    Json::Object(
        seq![
            ("index"@, Json::Number(JsonNumber::PosInt(e.index as u64))),
            ("generation"@, Json::Number(JsonNumber::PosInt(e.generation as u64))),
        ],
    )
}

/// Builds the JSON form of an entity handle.
pub fn entity_value(e: Entity) -> (r: JsonValue)
    ensures
        r@ == entity_json(e),
{
    let mut m = JsonMap::new();
    m.insert("index".to_owned(), JsonValue::from_u32(e.index));
    proof {
        reveal_strlit("index");
        reveal_strlit("generation");
    }
    assert(m@ =~= seq![("index"@, Json::Number(JsonNumber::PosInt(e.index as u64)))]);
    assert("index"@.len() == 5 && "generation"@.len() == 10);
    m.insert("generation".to_owned(), JsonValue::from_u32(e.generation));
    assert(m@ =~= seq![
        ("index"@, Json::Number(JsonNumber::PosInt(e.index as u64))),
        ("generation"@, Json::Number(JsonNumber::PosInt(e.generation as u64))),
    ]);
    JsonValue::Object(m)
}

/// A domain event's name and payload members.
pub struct EventModel {
    pub name: Seq<char>,
    pub payload: Seq<(Seq<char>, Json)>,
}

/// The model of a domain event.
pub open spec fn event_model(e: DomainEvent) -> EventModel {
    EventModel { name: e.name@, payload: e.payload@ }
}

impl DomainEvent {
    /// A custom event with the given name and payload.
    pub fn custom(name: String, payload: JsonMap) -> (r: Self)
        ensures
            r.name == name,
            r.payload == payload,
    {
        DomainEvent { name, payload }
    }

    /// The per-tick event: name `tick`, empty payload.
    pub fn tick() -> (r: Self)
        ensures
            r.name@ == "tick"@,
            r.payload@ == Seq::<(Seq<char>, Json)>::empty(),
    {
        DomainEvent::custom("tick".to_owned(), JsonMap::new())
    }

    /// Collision between `a` and `b`; `normal` is the JSON form of the
    /// collision normal.
    pub fn collision(a: Entity, b: Entity, normal: JsonValue) -> (r: Self)
        ensures
            r.name@ == "collision"@,
            r.payload@ == seq![("a"@, entity_json(a)), ("b"@, entity_json(b)), ("normal"@, normal@)],
    {
        let mut payload = JsonMap::new();
        proof {
            reveal_strlit("a");
            reveal_strlit("b");
            reveal_strlit("normal");
        }
        payload.insert("a".to_owned(), entity_value(a));
        assert(payload@ =~= seq![("a"@, entity_json(a))]);
        assert("a"@[0] == 'a' && "b"@[0] == 'b');
        payload.insert("b".to_owned(), entity_value(b));
        assert(payload@ =~= seq![("a"@, entity_json(a)), ("b"@, entity_json(b))]);
        assert("normal"@.len() == 6 && "a"@.len() == 1 && "b"@.len() == 1);
        let ghost nv = normal@;
        payload.insert("normal".to_owned(), normal);
        assert(payload@ =~= seq![("a"@, entity_json(a)), ("b"@, entity_json(b)), ("normal"@, nv)]);
        DomainEvent::custom("collision".to_owned(), payload)
    }

    /// A rule action failed: names the rule, the failing action's index
    /// and the reason.
    pub fn rule_action_failed(rule: &str, action_index: u32, reason: &str) -> (r: Self)
        ensures
            r.name@ == "rule_action_failed"@,
            r.payload@ == seq![
                ("rule"@, Json::Str(rule@)),
                ("action_index"@, Json::Number(JsonNumber::PosInt(action_index as u64))),
                ("reason"@, Json::Str(reason@)),
            ],
    {
        let mut payload = JsonMap::new();
        proof {
            reveal_strlit("rule");
            reveal_strlit("action_index");
            reveal_strlit("reason");
        }
        payload.insert("rule".to_owned(), JsonValue::from_str(rule));
        assert(payload@ =~= seq![("rule"@, Json::Str(rule@))]);
        assert("rule"@.len() == 4 && "action_index"@.len() == 12);
        payload.insert("action_index".to_owned(), JsonValue::from_u32(action_index));
        assert(payload@ =~= seq![
            ("rule"@, Json::Str(rule@)),
            ("action_index"@, Json::Number(JsonNumber::PosInt(action_index as u64))),
        ]);
        assert("reason"@.len() == 6 && "rule"@.len() == 4 && "action_index"@.len() == 12);
        payload.insert("reason".to_owned(), JsonValue::from_str(reason));
        assert(payload@ =~= seq![
            ("rule"@, Json::Str(rule@)),
            ("action_index"@, Json::Number(JsonNumber::PosInt(action_index as u64))),
            ("reason"@, Json::Str(reason@)),
        ]);
        DomainEvent::custom("rule_action_failed".to_owned(), payload)
    }
}

} // verus!
