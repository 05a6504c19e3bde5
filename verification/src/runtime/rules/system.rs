use vstd::prelude::*;

use crate::component::spatial::Velocity;
use crate::ecs::entity::{entity_debug, push_entity_debug, Entity};
use crate::ecs::world::{World, WorldView};
use crate::event::payload::{entity_json, entity_value, event_model, DomainEvent, EventModel, MarkerEvent};
use crate::event::queue::{event_models, QueueView};
use crate::json::{
    clone_value, entries_get, json_seq_view, keys_distinct, lemma_seq_view_len, lemma_seq_view_push, Json, JsonMap,
    JsonNumber, JsonValue,
};
use crate::math::{Scalar, Vec2};
use crate::runtime::binding::{find_name, substitute, substitute_payload, tags_match, entity_matches, Bindings};
use crate::runtime::rules::model::{Action, EntityMatch, MatchSpec, ReverseAxis, Rule, RuleSet};
use crate::tag::set::TagSet;
use crate::text::{debug_quoted, debug_quoted_string, decimal, push_decimal};

verus! {

// ---------------------------------------------------------------------
// Reading entities and normals out of event payloads.
// ---------------------------------------------------------------------

/// A JSON value read as a `u32`: an integer in range. Floats, strings and
/// other values are refused.
pub open spec fn json_u32(j: Json) -> Option<u32> {
    match j {
        Json::Number(JsonNumber::PosInt(n)) => if n <= u32::MAX {
            Some(n as u32)
        } else {
            None
        },
        Json::Number(JsonNumber::NegInt(n)) => if 0 <= n <= u32::MAX {
            Some(n as u32)
        } else {
            None
        },
        _ => None,
    }
}

/// An entity handle written as JSON: an object whose `index` and
/// `generation` members are `u32` (other members are ignored), or an
/// array of exactly those two numbers.
pub open spec fn entity_from_json(j: Json) -> Option<Entity> {
    match j {
        Json::Object(m) => match (entries_get(m, "index"@), entries_get(m, "generation"@)) {
            (Some(i), Some(g)) => match (json_u32(i), json_u32(g)) {
                (Some(index), Some(generation)) => Some(Entity { index, generation }),
                _ => None,
            },
            _ => None,
        },
        Json::Array(items) => if items.len() == 2 {
            match (json_u32(items[0]), json_u32(items[1])) {
                (Some(index), Some(generation)) => Some(Entity { index, generation }),
                _ => None,
            }
        } else {
            None
        },
        _ => None,
    }
}

/// A JSON value read as a number.
pub open spec fn json_number(j: Json) -> Option<JsonNumber> {
    match j {
        Json::Number(n) => Some(n),
        _ => None,
    }
}

/// A 2D vector written as JSON: an object with numeric `x` and `y`
/// members, or an array of exactly two numbers.
pub open spec fn vec2_from_json(j: Json) -> Option<(JsonNumber, JsonNumber)> {
    match j {
        Json::Object(m) => match (entries_get(m, "x"@), entries_get(m, "y"@)) {
            (Some(x), Some(y)) => match (json_number(x), json_number(y)) {
                (Some(a), Some(b)) => Some((a, b)),
                _ => None,
            },
            _ => None,
        },
        Json::Array(items) => if items.len() == 2 {
            match (json_number(items[0]), json_number(items[1])) {
                (Some(a), Some(b)) => Some((a, b)),
                _ => None,
            }
        } else {
            None
        },
        _ => None,
    }
}

/// The `normal` member of an event payload, read as a 2D vector.
pub open spec fn payload_normal(payload: Seq<(Seq<char>, Json)>) -> Option<(JsonNumber, JsonNumber)> {
    match entries_get(payload, "normal"@) {
        Some(j) => vec2_from_json(j),
        None => None,
    }
}

// ---------------------------------------------------------------------
// Binding a rule's match parameters.
// ---------------------------------------------------------------------

/// The entities bound to the first `n` parameters of `spec`, read from
/// event payload `payload`: each parameter's payload member must name a
/// live entity that passes the parameter's filter.
pub open spec fn bind_prefix<S, R>(
    w: WorldView<S, R>,
    spec: MatchSpec,
    payload: Seq<(Seq<char>, Json)>,
    n: nat,
) -> Option<Seq<Entity>>
    decreases n,
{
    if n == 0 {
        Some(Seq::empty())
    } else {
        let k = n - 1;
        match bind_prefix(w, spec, payload, k as nat) {
            None => None,
            Some(es) => match entries_get(payload, spec.params@[k]@) {
                None => None,
                Some(j) => match entity_from_json(j) {
                    None => None,
                    Some(e) => if !w.live(e) {
                        None
                    } else if k < spec.filters@.len() && !tags_match(w, e, spec.filters@[k]) {
                        None
                    } else {
                        Some(es.push(e))
                    },
                },
            },
        }
    }
}

/// The entities bound to all parameters of `rule` by payload `payload`,
/// or `None` when the rule does not apply.
pub open spec fn bind_rule<S, R>(w: WorldView<S, R>, rule: Rule<S>, payload: Seq<(Seq<char>, Json)>) -> Option<
    Seq<Entity>,
> {
    bind_prefix(w, rule.match_spec, payload, rule.match_spec.params@.len())
}

/// The parameter names of `spec`.
pub open spec fn param_names(spec: MatchSpec) -> Seq<Seq<char>> {
    spec.params@.map_values(|s: String| s@)
}

// ---------------------------------------------------------------------
// Rule actions.
// ---------------------------------------------------------------------

/// Reason given for an action whose target parameter is not bound.
pub open spec fn param_not_bound_reason(target: u8) -> Seq<char> {
    "param "@ + decimal(target as nat) + " is not bound"@
}

/// Reason given when the target entity has no velocity.
pub open spec fn velocity_missing_reason(e: Entity) -> Seq<char> {
    "velocity component missing on entity "@ + entity_debug(e)
}

/// Velocity `v` with the components selected by `axis` negated, or
/// `None` when `axis` is `FromNormal` and the payload has no readable
/// normal. `FromNormal` negates each component whose normal component is
/// nonzero.
pub open spec fn reversed<S: Scalar>(v: Vec2<S>, axis: ReverseAxis, payload: Seq<(Seq<char>, Json)>) -> Option<
    Vec2<S>,
> {
    match axis {
        ReverseAxis::X => Some(Vec2 { x: v.x.spec_neg(), y: v.y }),
        ReverseAxis::Y => Some(Vec2 { x: v.x, y: v.y.spec_neg() }),
        ReverseAxis::Both => Some(Vec2 { x: v.x.spec_neg(), y: v.y.spec_neg() }),
        ReverseAxis::FromNormal => match payload_normal(payload) {
            None => None,
            Some((nx, ny)) => Some(
                Vec2 {
                    x: if S::spec_number_is_zero(nx) {
                        v.x
                    } else {
                        v.x.spec_neg()
                    },
                    y: if S::spec_number_is_zero(ny) {
                        v.y
                    } else {
                        v.y.spec_neg()
                    },
                },
            ),
        },
    }
}

/// World `w` with domain event `e` queued behind its pending ones.
pub open spec fn queued<S, R>(w: WorldView<S, R>, e: EventModel) -> WorldView<S, R> {
    WorldView { events: QueueView { domain: w.events.domain.push(e), marker: w.events.marker }, ..w }
}

/// World `w` with its oldest pending domain event taken off the queue.
pub open spec fn dequeued<S, R>(w: WorldView<S, R>) -> WorldView<S, R> {
    WorldView { events: QueueView { domain: w.events.domain.drop_first(), marker: w.events.marker }, ..w }
}

/// The result of running one action against world `w`, with parameter
/// `names` bound to `entities` by an event with payload `payload`: the new
/// world, or the failure reason (in which case nothing changed).
/// Spawning, despawning and animation actions are not run by the rule
/// engine and always fail.
pub open spec fn run_action_spec<S: Scalar, R>(
    w: WorldView<S, R>,
    action: Action<S>,
    names: Seq<Seq<char>>,
    entities: Seq<Entity>,
    payload: Seq<(Seq<char>, Json)>,
) -> Result<WorldView<S, R>, Seq<char>> {
    match action {
        Action::SetVelocity { target, velocity } => if (target.0 as int) < entities.len() {
            let e = entities[target.0 as int];
            match w.component::<Velocity<S>>(e) {
                Some(_) => Ok(w.with_component(e, Some(Velocity(velocity)))),
                None => Err(velocity_missing_reason(e)),
            }
        } else {
            Err(param_not_bound_reason(target.0))
        },
        Action::ReverseVelocity { target, axis } => if (target.0 as int) < entities.len() {
            let e = entities[target.0 as int];
            match w.component::<Velocity<S>>(e) {
                Some(v) => match reversed(v.0, axis, payload) {
                    Some(nv) => Ok(w.with_component(e, Some(Velocity(nv)))),
                    None => Err("normal missing or malformed"@),
                },
                None => Err(velocity_missing_reason(e)),
            }
        } else {
            Err(param_not_bound_reason(target.0))
        },
        Action::Emit { event, payload: template } => match substitute(template@, names, entities, "unknown emit binding "@) {
            Err(m) => Err(m),
            Ok(Json::Object(fields)) => Ok(queued(w, EventModel { name: event@, payload: fields })),
            Ok(_) => Err("emit payload must be an object"@),
        },
        _ => Err("action not implemented"@),
    }
}

/// The event announcing that action `index` of rule `rule` failed.
pub open spec fn failure_model(rule: Seq<char>, index: nat, reason: Seq<char>) -> EventModel {
    let shown: u32 = if index > u32::MAX {
        u32::MAX
    } else {
        index as u32
    };
    EventModel {
        name: "rule_action_failed"@,
        payload: seq![
            ("rule"@, Json::Str(rule)),
            ("action_index"@, Json::Number(JsonNumber::PosInt(shown as u64))),
            ("reason"@, Json::Str(reason)),
        ],
    }
}

/// Runs the actions of `rule` from action `k` on, in order. The first
/// failing action stops the rule and queues a failure event; what earlier
/// actions did stays.
pub open spec fn run_actions_from<S: Scalar, R>(
    w: WorldView<S, R>,
    rule: Rule<S>,
    entities: Seq<Entity>,
    payload: Seq<(Seq<char>, Json)>,
    k: nat,
) -> WorldView<S, R>
    decreases rule.actions@.len() - k,
{
    if k >= rule.actions@.len() {
        w
    } else {
        match run_action_spec(w, rule.actions@[k as int], param_names(rule.match_spec), entities, payload) {
            Ok(w2) => run_actions_from(w2, rule, entities, payload, k + 1),
            Err(reason) => queued(w, failure_model(rule.id.0@, k, reason)),
        }
    }
}

/// Runs the rules `rules` from rule `k` on against an event with payload
/// `payload`: each rule whose parameters bind runs its actions; the
/// others are skipped.
pub open spec fn run_rules<S: Scalar, R>(
    w: WorldView<S, R>,
    rules: Seq<Rule<S>>,
    payload: Seq<(Seq<char>, Json)>,
    k: nat,
) -> WorldView<S, R>
    decreases rules.len() - k,
{
    if k >= rules.len() {
        w
    } else {
        match bind_rule(w, rules[k as int], payload) {
            None => run_rules(w, rules, payload, k + 1),
            Some(es) => run_rules(run_actions_from(w, rules[k as int], es, payload, 0), rules, payload, k + 1),
        }
    }
}

/// Drains up to `fuel` pending domain events of `w`, oldest first: each
/// is forwarded and then handled by the rules subscribed to its name,
/// whose actions may queue further events behind it. Returns the final
/// world (the events beyond the budget stay queued) and the forwarded
/// events in order.
pub open spec fn drain<S: Scalar, R>(rules: RuleSet<S>, w: WorldView<S, R>, fuel: nat) -> (
    WorldView<S, R>,
    Seq<EventModel>,
)
    decreases fuel,
{
    if fuel == 0 || w.events.domain.len() == 0 {
        (w, Seq::empty())
    } else {
        let e = w.events.domain[0];
        let w2 = run_rules(dequeued(w), rules.rules_for_spec(e.name), e.payload, 0);
        let (w3, out) = drain(rules, w2, (fuel - 1) as nat);
        (w3, seq![e] + out)
    }
}

/// Draining `w` with a budget of `fuel` events empties its domain queue.
pub open spec fn drains_within<S: Scalar, R>(rules: RuleSet<S>, w: WorldView<S, R>, fuel: nat) -> bool {
    drain(rules, w, fuel).0.events.domain.len() == 0
}

/// Draining `w` comes to an end: the events that rule actions queue on
/// the way die out.
pub open spec fn drain_terminates<S: Scalar, R>(rules: RuleSet<S>, w: WorldView<S, R>) -> bool {
    exists|fuel: nat| drains_within(rules, w, fuel)
}

/// Draining `w` until its domain queue is empty: the final world and the
/// forwarded events in order.
pub open spec fn drain_all<S: Scalar, R>(rules: RuleSet<S>, w: WorldView<S, R>) -> (WorldView<S, R>, Seq<EventModel>) {
    drain(rules, w, choose|fuel: nat| drains_within(rules, w, fuel))
}

/// A budget that empties the queue gives the same drain as any larger one.
pub proof fn lemma_drain_fuel_enough<S: Scalar, R>(rules: RuleSet<S>, w: WorldView<S, R>, n: nat, m: nat)
    requires
        drains_within(rules, w, n),
        n <= m,
    ensures
        drain(rules, w, m) == drain(rules, w, n),
    decreases n,
{
    if w.events.domain.len() > 0 {
        let e = w.events.domain[0];
        let w2 = run_rules(dequeued(w), rules.rules_for_spec(e.name), e.payload, 0);
        lemma_drain_fuel_enough(rules, w2, (n - 1) as nat, (m - 1) as nat);
    }
}

// ---------------------------------------------------------------------
// Lemmas.
// ---------------------------------------------------------------------

/// Once a parameter fails to bind, the whole rule fails to bind.
proof fn lemma_bind_none<S, R>(w: WorldView<S, R>, spec: MatchSpec, payload: Seq<(Seq<char>, Json)>, k: nat, n: nat)
    requires
        k <= n,
        bind_prefix(w, spec, payload, k) is None,
    ensures
        bind_prefix(w, spec, payload, n) is None,
    decreases n - k,
{
    if k < n {
        lemma_bind_none(w, spec, payload, k, (n - 1) as nat);
    }
}

// ---------------------------------------------------------------------
// Reading payloads.
// ---------------------------------------------------------------------

/// A JSON value read as a `u32`.
fn value_u32(v: &JsonValue) -> (r: Option<u32>)
    ensures
        r == json_u32(v@),
{
    match v {
        JsonValue::Number(JsonNumber::PosInt(n)) => if *n <= 0xffff_ffffu64 {
            Some(*n as u32)
        } else {
            None
        },
        JsonValue::Number(JsonNumber::NegInt(n)) => if 0 <= *n && *n <= 0xffff_ffffi64 {
            Some(*n as u32)
        } else {
            None
        },
        _ => None,
    }
}

/// A JSON value read as a number.
fn value_number(v: &JsonValue) -> (r: Option<JsonNumber>)
    ensures
        r == json_number(v@),
{
    match v {
        JsonValue::Number(n) => Some(n.clone()),
        _ => None,
    }
}

/// The entity handle written in `value`.
fn parse_entity(value: &JsonValue) -> (r: Option<Entity>)
    ensures
        r == entity_from_json(value@),
{
    match value {
        JsonValue::Object(m) => match (m.get("index"), m.get("generation")) {
            (Some(i), Some(g)) => match (value_u32(i), value_u32(g)) {
                (Some(index), Some(generation)) => Some(Entity { index, generation }),
                _ => None,
            },
            _ => None,
        },
        JsonValue::Array(items) => {
            proof {
                lemma_seq_view_len(items@);
            }
            if items.len() == 2 {
                match (value_u32(&items[0]), value_u32(&items[1])) {
                    (Some(index), Some(generation)) => Some(Entity { index, generation }),
                    _ => None,
                }
            } else {
                None
            }
        },
        _ => None,
    }
}

/// The `normal` member of the event's payload, read as a 2D vector.
fn event_normal(event: &DomainEvent) -> (r: Option<(JsonNumber, JsonNumber)>)
    ensures
        r == payload_normal(event.payload@),
{
    let value = match event.payload.get("normal") {
        Some(v) => v,
        None => return None,
    };
    match value {
        JsonValue::Object(m) => match (m.get("x"), m.get("y")) {
            (Some(x), Some(y)) => match (value_number(x), value_number(y)) {
                (Some(a), Some(b)) => Some((a, b)),
                _ => None,
            },
            _ => None,
        },
        JsonValue::Array(items) => {
            proof {
                lemma_seq_view_len(items@);
            }
            if items.len() == 2 {
                match (value_number(&items[0]), value_number(&items[1])) {
                    (Some(a), Some(b)) => Some((a, b)),
                    _ => None,
                }
            } else {
                None
            }
        },
        _ => None,
    }
}

// ---------------------------------------------------------------------
// Binding.
// ---------------------------------------------------------------------

/// Binds the parameters of `rule` to the entities named in the payload of
/// `event`, or `None` when the rule does not apply.
fn bind_event<S, R>(world: &World<S, R>, rule: &Rule<S>, event: &DomainEvent) -> (r: Option<Bindings>)
    requires
        world.wf(),
    ensures
        match bind_rule(world@, *rule, event.payload@) {
            Some(es) => r matches Some(b) && b.wf() && b.entities@ == es && b.names() == param_names(
                rule.match_spec,
            ),
            None => r is None,
        },
{
    let n = rule.match_spec.params.len();
    let mut params: Vec<String> = Vec::new();
    let mut entities: Vec<Entity> = Vec::new();
    let mut i: usize = 0;
    while i < n
        invariant
            world.wf(),
            n == rule.match_spec.params@.len(),
            i <= n,
            bind_prefix(world@, rule.match_spec, event.payload@, i as nat) == Some(entities@),
            params@ == rule.match_spec.params@.take(i as int),
            entities@.len() == i,
        decreases n - i,
    {
        let param = &rule.match_spec.params[i];
        let fails = match event.payload.get(param.as_str()) {
            None => true,
            Some(value) => match parse_entity(value) {
                None => true,
                Some(entity) => {
                    if !world.is_alive(entity) {
                        true
                    } else if i < rule.match_spec.filters.len() && !entity_matches(
                        world,
                        entity,
                        &rule.match_spec.filters[i],
                    ) {
                        true
                    } else {
                        params.push(param.clone());
                        entities.push(entity);
                        false
                    }
                },
            },
        };
        if fails {
            proof {
                lemma_bind_none(world@, rule.match_spec, event.payload@, (i + 1) as nat, n as nat);
            }
            return None;
        }
        assert(params@ =~= rule.match_spec.params@.take(i + 1));
        i = i + 1;
    }
    assert(params@ =~= rule.match_spec.params@);
    let b = Bindings { params, entities };
    assert(b.names() =~= param_names(rule.match_spec));
    Some(b)
}

// ---------------------------------------------------------------------
// Failure reasons.
// ---------------------------------------------------------------------

fn param_not_bound_message(target: u8) -> (r: String)
    ensures
        r@ == param_not_bound_reason(target),
{
    let mut m = "param ".to_owned();
    push_decimal(&mut m, target as u64);
    m.append(" is not bound");
    m
}

fn velocity_missing_message(e: Entity) -> (r: String)
    ensures
        r@ == velocity_missing_reason(e),
{
    let mut m = "velocity component missing on entity ".to_owned();
    push_entity_debug(&mut m, e);
    m
}

/// The entity bound to parameter `target`.
fn bound_entity(b: &Bindings, target: u8) -> (r: Result<Entity, String>)
    ensures
        (target as int) < b.entities@.len() ==> r == Ok::<Entity, String>(b.entities@[target as int]),
        (target as int) >= b.entities@.len() ==> (r matches Err(m) && m@ == param_not_bound_reason(target)),
{
    match b.entity(target) {
        Some(e) => Ok(e),
        None => Err(param_not_bound_message(target)),
    }
}

// ---------------------------------------------------------------------
// Running actions and rules.
// ---------------------------------------------------------------------

/// `velocity` with the components selected by `axis` negated.
fn reverse_velocity<S: Scalar>(velocity: Velocity<S>, axis: ReverseAxis, event: &DomainEvent) -> (r: Result<
    Velocity<S>,
    String,
>)
    ensures
        match reversed(velocity.0, axis, event.payload@) {
            Some(v) => r matches Ok(x) && x == Velocity(v),
            None => r matches Err(m) && m@ == "normal missing or malformed"@,
        },
{
    let v = velocity.0;
    match axis {
        ReverseAxis::X => Ok(Velocity(Vec2 { x: v.x.neg(), y: v.y })),
        ReverseAxis::Y => Ok(Velocity(Vec2 { x: v.x, y: v.y.neg() })),
        ReverseAxis::Both => Ok(Velocity(Vec2 { x: v.x.neg(), y: v.y.neg() })),
        ReverseAxis::FromNormal => match event_normal(event) {
            None => Err("normal missing or malformed".to_owned()),
            Some((nx, ny)) => {
                let x = if S::number_is_zero(&nx) {
                    v.x
                } else {
                    v.x.neg()
                };
                let y = if S::number_is_zero(&ny) {
                    v.y
                } else {
                    v.y.neg()
                };
                Ok(Velocity(Vec2 { x, y }))
            },
        },
    }
}

/// Runs one action; on failure nothing has changed.
fn run_action<S: Scalar, R>(world: &mut World<S, R>, action: &Action<S>, b: &Bindings, event: &DomainEvent) -> (r:
    Result<(), String>)
    requires
        old(world).wf(),
        b.wf(),
    ensures
        final(world).wf(),
        final(world)@.events.marker == old(world)@.events.marker,
        match run_action_spec(old(world)@, *action, b.names(), b.entities@, event.payload@) {
            Ok(w2) => r is Ok && final(world)@ == w2,
            Err(m) => r matches Err(x) && x@ == m && final(world)@ == old(world)@,
        },
{
    match action {
        Action::SetVelocity { target, velocity } => {
            let entity = match bound_entity(b, target.0) {
                Ok(e) => e,
                Err(m) => return Err(m),
            };
            match world.get_mut::<Velocity<S>>(entity) {
                None => Err(velocity_missing_message(entity)),
                Some(current) => {
                    *current = Velocity(*velocity);
                    Ok(())
                },
            }
        },
        Action::ReverseVelocity { target, axis } => {
            let entity = match bound_entity(b, target.0) {
                Ok(e) => e,
                Err(m) => return Err(m),
            };
            let current = match world.get::<Velocity<S>>(entity) {
                None => return Err(velocity_missing_message(entity)),
                Some(v) => *v,
            };
            let next = match reverse_velocity(current, *axis, event) {
                Ok(v) => v,
                Err(m) => return Err(m),
            };
            match world.get_mut::<Velocity<S>>(entity) {
                Some(slot) => {
                    *slot = next;
                },
                None => {},
            }
            Ok(())
        },
        Action::Emit { event: name, payload } => match substitute_payload(payload, b, "unknown emit binding ") {
            Err(m) => Err(m),
            Ok(JsonValue::Object(fields)) => {
                world.event_queue_mut().emit_domain(DomainEvent::custom(name.clone(), fields));
                Ok(())
            },
            Ok(_) => Err("emit payload must be an object".to_owned()),
        },
        _ => Err("action not implemented".to_owned()),
    }
}

/// Queues the event announcing that action `index` of `rule` failed.
fn emit_rule_action_failed<S, R>(world: &mut World<S, R>, rule: &Rule<S>, index: usize, reason: &str)
    requires
        old(world).wf(),
    ensures
        final(world).wf(),
        final(world)@ == queued(old(world)@, failure_model(rule.id.0@, index as nat, reason@)),
{
    let shown: u32 = if index > 0xffff_ffffusize {
        0xffff_ffffu32
    } else {
        index as u32
    };
    let event = DomainEvent::rule_action_failed(rule.id.0.as_str(), shown, reason);
    world.event_queue_mut().emit_domain(event);
}

/// Runs the actions of `rule` in order, stopping at the first failure.
fn run_actions<S: Scalar, R>(world: &mut World<S, R>, rule: &Rule<S>, b: &Bindings, event: &DomainEvent)
    requires
        old(world).wf(),
        b.wf(),
        b.names() == param_names(rule.match_spec),
    ensures
        final(world).wf(),
        final(world)@.events.marker == old(world)@.events.marker,
        final(world)@ == run_actions_from(old(world)@, *rule, b.entities@, event.payload@, 0),
{
    let ghost w0 = world@;
    let mut k: usize = 0;
    while k < rule.actions.len()
        invariant
            world.wf(),
            w0 == old(world)@,
            world@.events.marker == w0.events.marker,
            b.wf(),
            b.names() == param_names(rule.match_spec),
            k <= rule.actions@.len(),
            run_actions_from(world@, *rule, b.entities@, event.payload@, k as nat) == run_actions_from(
                w0,
                *rule,
                b.entities@,
                event.payload@,
                0,
            ),
        decreases rule.actions@.len() - k,
    {
        let ghost before = world@;
        match run_action(world, &rule.actions[k], b, event) {
            Ok(()) => {},
            Err(reason) => {
                assert(run_action_spec(
                    before,
                    rule.actions@[k as int],
                    param_names(rule.match_spec),
                    b.entities@,
                    event.payload@,
                ) == Err::<WorldView<S, R>, Seq<char>>(reason@));
                assert(run_actions_from(before, *rule, b.entities@, event.payload@, k as nat) == queued(
                    before,
                    failure_model(rule.id.0@, k as nat, reason@),
                ));
                emit_rule_action_failed(world, rule, k, reason.as_str());
                assert(world@ == queued(before, failure_model(rule.id.0@, k as nat, reason@)));
                return;
            },
        }
        k = k + 1;
    }
}

// ---------------------------------------------------------------------
// The processor.
// ---------------------------------------------------------------------

/// Drains the world's event queue between ticks: domain events are
/// handed back for forwarding and matched against the loaded rules, whose
/// actions run against the world; marker events are handed back only.
pub struct RuleProcessor<S> {
    rules: RuleSet<S>,
}

impl<S> RuleProcessor<S> {
    #[verifier::type_invariant]
    spec fn inv(self) -> bool {
        self.rules.wf()
    }

    /// The loaded rules.
    pub closed spec fn rule_set(&self) -> RuleSet<S> {
        self.rules
    }

    /// A processor for `rules`.
    pub fn new(rules: RuleSet<S>) -> (r: Self)
        requires
            rules.wf(),
        ensures
            r.rule_set() == rules,
    {
        RuleProcessor { rules }
    }

    /// The loaded rules.
    pub fn rules(&self) -> (r: &RuleSet<S>)
        ensures
            *r == self.rule_set(),
            r.wf(),
    {
        proof {
            use_type_invariant(self);
        }
        &self.rules
    }
}

impl<S: Scalar> RuleProcessor<S> {
    /// Runs every rule subscribed to `event`'s name, in order.
    fn process_domain_event<R>(&self, world: &mut World<S, R>, event: &DomainEvent)
        requires
            old(world).wf(),
        ensures
            final(world).wf(),
            final(world)@.events.marker == old(world)@.events.marker,
            final(world)@ == run_rules(old(world)@, self.rule_set().rules_for_spec(event.name@), event.payload@, 0),
    {
        proof {
            use_type_invariant(self);
        }
        let rules = self.rules.rules_for(event.name.as_str());
        let ghost w0 = world@;
        let mut k: usize = 0;
        while k < rules.len()
            invariant
                world.wf(),
                w0 == old(world)@,
                world@.events.marker == w0.events.marker,
                rules@ == self.rule_set().rules_for_spec(event.name@),
                k <= rules@.len(),
                run_rules(world@, rules@, event.payload@, k as nat) == run_rules(w0, rules@, event.payload@, 0),
            decreases rules@.len() - k,
        {
            let rule = &rules[k];
            match bind_event(world, rule, event) {
                None => {},
                Some(b) => {
                    run_actions(world, rule, &b, event);
                },
            }
            k = k + 1;
        }
    }

    /// Drains the world's event queue: domain events are taken oldest
    /// first, including those queued by rule actions on the way, until none
    /// is left; each is returned for forwarding and then handled by the
    /// rules subscribed to its name. Then all marker events are taken and
    /// returned, in order. The iteration cap is not enforced: a cascade of
    /// rule events that never dies out would never return, so the drain
    /// must come to an end.
    pub fn process<R>(&self, world: &mut World<S, R>, _max_iterations: u32) -> (r: (Vec<DomainEvent>, Vec<MarkerEvent>))
        requires
            old(world).wf(),
            drain_terminates(self.rule_set(), old(world)@),
        ensures
            final(world).wf(),
            ({
                let (w, forwarded) = drain_all(self.rule_set(), old(world)@);
                &&& final(world)@ == (WorldView {
                    events: QueueView { domain: Seq::empty(), marker: Seq::empty() },
                    ..w
                })
                &&& w.events.domain.len() == 0
                &&& event_models(r.0@) == forwarded
            }),
            r.1@ == old(world)@.events.marker,
    {
        proof {
            use_type_invariant(self);
        }
        let ghost w0 = world@;
        let ghost budget = choose|fuel: nat| drains_within(self.rules, w0, fuel);
        let ghost total = drain(self.rules, w0, budget);
        let mut forwarded: Vec<DomainEvent> = Vec::new();
        let ghost mut it: nat = 0;
        let mut done = false;
        while !done
            invariant
                world.wf(),
                self.rules.wf(),
                w0 == old(world)@,
                total == drain_all(self.rules, w0),
                total.0.events.domain.len() == 0,
                it <= budget,
                done ==> world@.events.domain.len() == 0,
                world@.events.marker == w0.events.marker,
                drain(self.rules, world@, (budget - it) as nat).0 == total.0,
                event_models(forwarded@) + drain(self.rules, world@, (budget - it) as nat).1 == total.1,
            decreases budget - it + (if done {
                0int
            } else {
                1int
            }),
        {
            let ghost before = world@;
            let ghost fuel = (budget - it) as nat;
            let next = world.event_queue_mut().next_domain();
            match next {
                None => {
                    done = true;
                },
                Some(event) => {
                    assert(world@ == dequeued(before));
                    assert(fuel > 0);
                    self.process_domain_event(world, &event);
                    proof {
                        let e = before.events.domain[0];
                        assert(e == event_model(event));
                        let rest = drain(self.rules, world@, (fuel - 1) as nat);
                        assert(drain(self.rules, before, fuel) == (rest.0, seq![e] + rest.1));
                        assert(event_models(forwarded@.push(event)) =~= event_models(forwarded@).push(e));
                        assert(event_models(forwarded@).push(e) + rest.1 =~= event_models(forwarded@) + (seq![e]
                            + rest.1));
                        it = it + 1;
                    }
                    forwarded.push(event);
                },
            }
        }
        assert(drain(self.rules, world@, (budget - it) as nat) == (world@, Seq::<EventModel>::empty()));
        assert(world@ == total.0);
        assert(event_models(forwarded@) + Seq::<EventModel>::empty() =~= event_models(forwarded@));
        let ghost wd = world@;
        let mut markers: Vec<MarkerEvent> = Vec::new();
        let mut finished = false;
        while !finished
            invariant
                world.wf(),
                wd == total.0,
                total == drain_all(self.rules, old(world)@),
                total.0.events.domain.len() == 0,
                event_models(forwarded@) == total.1,
                wd.events.marker == old(world)@.events.marker,
                world@ == (WorldView {
                    events: QueueView { domain: wd.events.domain, marker: world@.events.marker },
                    ..wd
                }),
                markers@ + world@.events.marker == wd.events.marker,
                finished ==> world@.events.marker.len() == 0,
            decreases world@.events.marker.len() + (if finished {
                0int
            } else {
                1int
            }),
        {
            let ghost before = world@;
            match world.event_queue_mut().next_marker() {
                None => {
                    finished = true;
                },
                Some(m) => {
                    assert(markers@.push(m) + world@.events.marker =~= markers@ + before.events.marker);
                    markers.push(m);
                },
            }
        }
        assert(markers@ + world@.events.marker =~= markers@);
        assert(world@.events.marker =~= Seq::<MarkerEvent>::empty());
        assert(wd.events.domain =~= Seq::<EventModel>::empty());
        (forwarded, markers)
    }
}

} // verus!
