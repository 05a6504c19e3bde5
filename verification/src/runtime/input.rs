use vstd::prelude::*;

use crate::ecs::entity::Entity;
use crate::ecs::world::{World, WorldView};
use crate::event::payload::{DomainEvent, EventModel, InputEvent};
use crate::event::queue::event_models;
use crate::json::{Json, JsonMap, JsonValue};
use crate::runtime::binding::{entity_matches, substitute, substitute_payload, tags_match, Bindings};
use crate::runtime::rules::load::{
    convert_match_spec, emit_payload_outcome, match_spec_outcome, ActionErrorModel, MatchSpecError,
};
use crate::runtime::rules::model::MatchSpec;
use crate::runtime::rules::system::param_names;
use crate::runtime::schema::input::{InputEmitSchema, InputMapSchema, InputTriggerSchema};
use crate::tag::registry::TagRegistry;
use crate::text::{distinct_keys, keys_of};

verus! {

/// What raw input fires an input map.
#[derive(Debug)]
pub enum InputTrigger {
    KeyPress { key: String },
    KeyRelease { key: String },
}

/// Whether trigger `t` fires on raw input `input`: same kind, same key.
pub open spec fn trigger_fires(t: InputTrigger, input: InputEvent) -> bool {
    match (t, input) {
        (InputTrigger::KeyPress { key: expected }, InputEvent::KeyPress { key }) => expected@ == key@,
        (InputTrigger::KeyRelease { key: expected }, InputEvent::KeyRelease { key }) => expected@ == key@,
        _ => false,
    }
}

impl InputTrigger {
    /// Whether this trigger fires on `input`.
    pub fn matches(&self, input: &InputEvent) -> (r: bool)
        ensures
            r == trigger_fires(*self, *input),
    {
        match (self, input) {
            (InputTrigger::KeyPress { key: expected }, InputEvent::KeyPress { key }) => *expected == *key,
            (InputTrigger::KeyRelease { key: expected }, InputEvent::KeyRelease { key }) => *expected == *key,
            _ => false,
        }
    }
}

/// The domain event an input map publishes.
#[derive(Debug)]
pub struct InputEmit {
    pub event: String,
    /// An object; `"$name"` strings name matched entities.
    pub payload: JsonValue,
}

/// One input map: when `trigger` fires and every parameter of
/// `match_spec` finds an entity, `emit` is published.
#[derive(Debug)]
pub struct InputMap {
    pub trigger: InputTrigger,
    pub match_spec: MatchSpec,
    pub emit: InputEmit,
}

/// Translates raw player input into domain events.
pub struct InputMapper {
    maps: Vec<InputMap>,
}

// ---------------------------------------------------------------------
// Binding parameters to world entities.
// ---------------------------------------------------------------------

/// The first entity of `candidates` that is not in `taken` and passes
/// `filter`.
pub open spec fn first_free_match<S, R>(
    w: WorldView<S, R>,
    candidates: Seq<Entity>,
    taken: Seq<Entity>,
    filter: crate::runtime::rules::model::EntityMatch,
) -> Option<Entity>
    decreases candidates.len(),
{
    if candidates.len() == 0 {
        None
    } else if !taken.contains(candidates[0]) && tags_match(w, candidates[0], filter) {
        Some(candidates[0])
    } else {
        first_free_match(w, candidates.drop_first(), taken, filter)
    }
}

/// The entities bound to the first `n` parameters of `spec`: each takes
/// the first live entity, in slot order, that no earlier parameter took
/// and that passes its filter. A parameter without a filter binds nothing.
pub open spec fn bind_world_prefix<S, R>(w: WorldView<S, R>, spec: MatchSpec, n: nat) -> Option<Seq<Entity>>
    decreases n,
{
    if n == 0 {
        Some(Seq::empty())
    } else {
        let k = n - 1;
        match bind_world_prefix(w, spec, k as nat) {
            None => None,
            Some(es) => if k >= spec.filters@.len() {
                None
            } else {
                match first_free_match(w, w.live_entities(), es, spec.filters@[k]) {
                    None => None,
                    Some(e) => Some(es.push(e)),
                }
            },
        }
    }
}

/// The entities bound to all parameters of `spec`.
pub open spec fn bind_world_spec<S, R>(w: WorldView<S, R>, spec: MatchSpec) -> Option<Seq<Entity>> {
    bind_world_prefix(w, spec, spec.params@.len())
}

proof fn lemma_bind_world_none<S, R>(w: WorldView<S, R>, spec: MatchSpec, k: nat, n: nat)
    requires
        k <= n,
        bind_world_prefix(w, spec, k) is None,
    ensures
        bind_world_prefix(w, spec, n) is None,
    decreases n - k,
{
    if k < n {
        lemma_bind_world_none(w, spec, k, (n - 1) as nat);
    }
}

/// Whether `e` occurs in `v`.
fn contains_entity(v: &Vec<Entity>, e: Entity) -> (r: bool)
    ensures
        r == v@.contains(e),
{
    let mut i: usize = 0;
    while i < v.len()
        invariant
            i <= v@.len(),
            forall|k: int| 0 <= k < i ==> v@[k] != e,
        decreases v@.len() - i,
    {
        if v[i] == e {
            assert(v@[i as int] == e);
            return true;
        }
        i = i + 1;
    }
    false
}

/// The first entity of `candidates` not in `taken` that passes `filter`.
fn find_free_match<S, R>(
    world: &World<S, R>,
    candidates: &Vec<Entity>,
    taken: &Vec<Entity>,
    filter: &crate::runtime::rules::model::EntityMatch,
) -> (r: Option<Entity>)
    requires
        world.wf(),
    ensures
        r == first_free_match(world@, candidates@, taken@, *filter),
{
    let mut i: usize = 0;
    assert(candidates@.skip(0) =~= candidates@);
    while i < candidates.len()
        invariant
            world.wf(),
            i <= candidates@.len(),
            first_free_match(world@, candidates@.skip(i as int), taken@, *filter) == first_free_match(
                world@,
                candidates@,
                taken@,
                *filter,
            ),
        decreases candidates@.len() - i,
    {
        let c = candidates[i];
        assert(candidates@.skip(i as int)[0] == c);
        assert(candidates@.skip(i as int).drop_first() =~= candidates@.skip(i + 1));
        if !contains_entity(taken, c) && entity_matches(world, c, filter) {
            return Some(c);
        }
        i = i + 1;
    }
    None
}

/// Binds each parameter of `match_spec` to a distinct live entity that
/// passes its filter, or `None` when some parameter finds none.
fn bind_world<S, R>(world: &World<S, R>, match_spec: &MatchSpec) -> (r: Option<Bindings>)
    requires
        world.wf(),
    ensures
        match bind_world_spec(world@, *match_spec) {
            Some(es) => r matches Some(b) && b.wf() && b.entities@ == es && b.names() == param_names(*match_spec),
            None => r is None,
        },
{
    let candidates = world.entities();
    let n = match_spec.params.len();
    let mut params: Vec<String> = Vec::new();
    let mut entities: Vec<Entity> = Vec::new();
    let mut i: usize = 0;
    while i < n
        invariant
            world.wf(),
            candidates@ == world@.live_entities(),
            n == match_spec.params@.len(),
            i <= n,
            bind_world_prefix(world@, *match_spec, i as nat) == Some(entities@),
            params@ == match_spec.params@.take(i as int),
            entities@.len() == i,
        decreases n - i,
    {
        if i >= match_spec.filters.len() {
            proof {
                lemma_bind_world_none(world@, *match_spec, (i + 1) as nat, n as nat);
            }
            return None;
        }
        match find_free_match(world, &candidates, &entities, &match_spec.filters[i]) {
            None => {
                proof {
                    lemma_bind_world_none(world@, *match_spec, (i + 1) as nat, n as nat);
                }
                return None;
            },
            Some(e) => {
                params.push(match_spec.params[i].clone());
                entities.push(e);
            },
        }
        assert(params@ =~= match_spec.params@.take(i + 1));
        i = i + 1;
    }
    assert(params@ =~= match_spec.params@);
    let b = Bindings { params, entities };
    assert(b.names() =~= param_names(*match_spec));
    Some(b)
}

// ---------------------------------------------------------------------
// Mapping input.
// ---------------------------------------------------------------------

/// Reason given when an input map's substituted payload is not an object.
pub open spec fn not_object_reason() -> Seq<char> {
    "input emit payload must be an object"@
}

/// The domain events published by maps `k..` for raw input `input`,
/// appended to `acc` in map order: each map whose trigger fires and whose
/// parameters all bind contributes one event. The first substitution
/// failure is the result instead.
pub open spec fn map_from<S, R>(
    w: WorldView<S, R>,
    maps: Seq<InputMap>,
    input: InputEvent,
    k: nat,
    acc: Seq<EventModel>,
) -> Result<Seq<EventModel>, Seq<char>>
    decreases maps.len() - k,
{
    if k >= maps.len() {
        Ok(acc)
    } else {
        let m = maps[k as int];
        if !trigger_fires(m.trigger, input) {
            map_from(w, maps, input, k + 1, acc)
        } else {
            match bind_world_spec(w, m.match_spec) {
                None => map_from(w, maps, input, k + 1, acc),
                Some(es) => match substitute(
                    m.emit.payload@,
                    param_names(m.match_spec),
                    es,
                    "unknown input binding "@,
                ) {
                    Err(e) => Err(e),
                    Ok(Json::Object(fields)) => map_from(
                        w,
                        maps,
                        input,
                        k + 1,
                        acc.push(EventModel { name: m.emit.event@, payload: fields }),
                    ),
                    Ok(_) => Err(not_object_reason()),
                },
            }
        }
    }
}

impl InputMapper {
    /// The maps, in order.
    pub closed spec fn maps(&self) -> Seq<InputMap> {
        self.maps@
    }

    /// A mapper over `maps`.
    pub fn new(maps: Vec<InputMap>) -> (r: Self)
        ensures
            r.maps() == maps@,
    {
        InputMapper { maps }
    }

    /// Converts one raw input event into the domain events of the maps it
    /// fires, in map order.
    pub fn map<S, R>(&self, world: &World<S, R>, input: &InputEvent) -> (r: Result<Vec<DomainEvent>, String>)
        requires
            world.wf(),
        ensures
            match map_from(world@, self.maps(), *input, 0, Seq::empty()) {
                Ok(events) => r matches Ok(v) && event_models(v@) == events,
                Err(m) => r matches Err(x) && x@ == m,
            },
    {
        let mut events: Vec<DomainEvent> = Vec::new();
        let mut k: usize = 0;
        assert(event_models(events@) =~= Seq::<EventModel>::empty());
        while k < self.maps.len()
            invariant
                world.wf(),
                k <= self.maps@.len(),
                map_from(world@, self.maps(), *input, k as nat, event_models(events@)) == map_from(
                    world@,
                    self.maps(),
                    *input,
                    0,
                    Seq::empty(),
                ),
            decreases self.maps@.len() - k,
        {
            let m = &self.maps[k];
            if m.trigger.matches(input) {
                match bind_world(world, &m.match_spec) {
                    None => {},
                    Some(b) => match substitute_payload(&m.emit.payload, &b, "unknown input binding ") {
                        Err(e) => {
                            return Err(e);
                        },
                        Ok(JsonValue::Object(fields)) => {
                            let ghost before = events@;
                            let ev = DomainEvent::custom(m.emit.event.clone(), fields);
                            events.push(ev);
                            assert(event_models(events@) =~= event_models(before).push(
                                crate::event::payload::event_model(ev),
                            ));
                        },
                        Ok(_) => {
                            return Err("input emit payload must be an object".to_owned());
                        },
                    },
                }
            }
            k = k + 1;
        }
        Ok(events)
    }
}

// ---------------------------------------------------------------------
// Loading maps.
// ---------------------------------------------------------------------

/// Why an input map could not be loaded.
#[derive(Debug)]
pub enum InputMapError {
    /// The match specification failed.
    MatchSpec(MatchSpecError),
    /// The emit payload is neither an object nor omitted.
    PayloadNotObject(JsonValue),
}

/// The trigger of a loaded map.
pub fn convert_trigger(schema: InputTriggerSchema) -> (r: InputTrigger)
    ensures
        match schema {
            InputTriggerSchema::KeyPress { key } => r == InputTrigger::KeyPress { key },
            InputTriggerSchema::KeyRelease { key } => r == InputTrigger::KeyRelease { key },
        },
{
    match schema {
        InputTriggerSchema::KeyPress { key } => InputTrigger::KeyPress { key },
        InputTriggerSchema::KeyRelease { key } => InputTrigger::KeyRelease { key },
    }
}

/// The emit part of a loaded map: an omitted payload is the empty
/// object; another non-object is refused.
pub fn convert_emit(schema: InputEmitSchema) -> (r: Result<InputEmit, InputMapError>)
    ensures
        match emit_payload_outcome(schema.payload@) {
            Ok(p) => r matches Ok(e) && e.event == schema.event_type && e.payload@ == p,
            Err(ActionErrorModel::PayloadNotObject(v)) => r matches Err(InputMapError::PayloadNotObject(x)) && x@
                == v,
            Err(_) => false,
        },
{
    let InputEmitSchema { event_type, payload } = schema;
    match payload {
        JsonValue::Null => Ok(InputEmit { event: event_type, payload: JsonValue::Object(JsonMap::new()) }),
        JsonValue::Object(_) => Ok(InputEmit { event: event_type, payload }),
        other => Err(InputMapError::PayloadNotObject(other)),
    }
}

/// Loads one `[[map]]` entry: its match specification first (interning
/// tag names into `registry`), then its emit part.
pub fn convert_input_map(schema: InputMapSchema, registry: &mut TagRegistry) -> (r: Result<InputMap, InputMapError>)
    requires
        old(registry).wf(),
        distinct_keys(keys_of(schema.match_spec@)),
    ensures
        final(registry).wf(),
        final(registry)@ == match_spec_outcome(old(registry)@, schema.match_spec@).0,
        match match_spec_outcome(old(registry)@, schema.match_spec@).1 {
            Err(e) => r matches Err(InputMapError::MatchSpec(x)) && x == e,
            Ok((params, filters)) => match emit_payload_outcome(schema.emit.payload@) {
                Err(ActionErrorModel::PayloadNotObject(v)) => r matches Err(InputMapError::PayloadNotObject(x))
                    && x@ == v,
                Err(_) => false,
                Ok(p) => r matches Ok(m) && crate::runtime::rules::load::string_views(m.match_spec.params@)
                    == params && m.match_spec.filters@.map_values(
                    |f: crate::runtime::rules::model::EntityMatch| crate::runtime::rules::load::filter_model(f),
                ) == filters && m.emit.event == schema.emit.event_type && m.emit.payload@ == p
                    && m.trigger == convert_trigger_spec(schema.trigger),
            },
        },
{
    let InputMapSchema { trigger, match_spec, emit } = schema;
    let match_spec = match convert_match_spec(match_spec, registry) {
        Ok(ms) => ms,
        Err(e) => return Err(InputMapError::MatchSpec(e)),
    };
    let emit = match convert_emit(emit) {
        Ok(e) => e,
        Err(e) => return Err(e),
    };
    Ok(InputMap { trigger: convert_trigger(trigger), match_spec, emit })
}

/// The trigger a trigger schema loads to.
pub open spec fn convert_trigger_spec(schema: InputTriggerSchema) -> InputTrigger {
    match schema {
        InputTriggerSchema::KeyPress { key } => InputTrigger::KeyPress { key },
        InputTriggerSchema::KeyRelease { key } => InputTrigger::KeyRelease { key },
    }
}

// ---------------------------------------------------------------------
// Laws.
// ---------------------------------------------------------------------

proof fn lemma_first_free_match<S, R>(
    w: WorldView<S, R>,
    candidates: Seq<Entity>,
    taken: Seq<Entity>,
    filter: crate::runtime::rules::model::EntityMatch,
)
    ensures
        first_free_match(w, candidates, taken, filter) matches Some(e) ==> candidates.contains(e) && !taken.contains(
            e,
        ) && tags_match(w, e, filter),
    decreases candidates.len(),
{
    if candidates.len() > 0 {
        lemma_first_free_match(w, candidates.drop_first(), taken, filter);
        if let Some(e) = first_free_match(w, candidates.drop_first(), taken, filter) {
            let j = choose|j: int| 0 <= j < candidates.drop_first().len() && candidates.drop_first()[j] == e;
            assert(candidates[j + 1] == e);
        }
        assert(candidates[0] == candidates[0]);
    }
}

/// Law: the entities an input map binds are pairwise distinct, live, and
/// each passes its parameter's filter.
pub proof fn law_input_bindings_distinct<S, R>(w: WorldView<S, R>, spec: MatchSpec, n: nat)
    requires
        w.wf(),
    ensures
        bind_world_prefix(w, spec, n) matches Some(es) ==> {
            &&& es.len() == n
            &&& forall|i: int, j: int| 0 <= i < j < es.len() ==> es[i] != es[j]
            &&& forall|i: int| 0 <= i < es.len() ==> w.live(#[trigger] es[i])
            &&& forall|i: int| 0 <= i < es.len() ==> tags_match(w, #[trigger] es[i], spec.filters@[i])
        },
    decreases n,
{
    if n > 0 {
        let k = (n - 1) as nat;
        law_input_bindings_distinct(w, spec, k);
        if let Some(es) = bind_world_prefix(w, spec, k) {
            if k < spec.filters@.len() {
                lemma_first_free_match(w, w.live_entities(), es, spec.filters@[k as int]);
                crate::ecs::query::lemma_live_entities_live(w, w.alive.len());
                if let Some(e) = first_free_match(w, w.live_entities(), es, spec.filters@[k as int]) {
                    let j = choose|j: int| 0 <= j < w.live_entities().len() && w.live_entities()[j] == e;
                    assert(w.live(w.live_entities()[j]));
                    let es2 = es.push(e);
                    assert forall|a: int, b: int| 0 <= a < b < es2.len() implies es2[a] != es2[b] by {
                        if b == es.len() {
                            assert(es2[a] == es[a]);
                            if es[a] == e {
                                assert(es.contains(e));
                            }
                        } else {
                            assert(es2[a] == es[a] && es2[b] == es[b]);
                        }
                    }
                    assert forall|i: int| 0 <= i < es2.len() implies w.live(#[trigger] es2[i]) by {
                        if i < es.len() {
                            assert(es2[i] == es[i]);
                        }
                    }
                    assert forall|i: int| 0 <= i < es2.len() implies tags_match(w, #[trigger] es2[i], spec.filters@[i]) by {
                        if i < es.len() {
                            assert(es2[i] == es[i]);
                        }
                    }
                }
            }
        }
    }
}

/// Law: a trigger fires on an input only when both are of the same kind
/// and name the same key: a key press fires on exactly the press of its
/// key, a key release on exactly the release of its key, and neither
/// fires on an input of the other kind.
pub proof fn law_trigger_fires_on_its_key(t: InputTrigger, input: InputEvent)
    ensures
        t matches InputTrigger::KeyPress { key: a } ==> (trigger_fires(t, input) <==> (
        input matches InputEvent::KeyPress { key: b } && a@ == b@)),
        t matches InputTrigger::KeyRelease { key: a } ==> (trigger_fires(t, input) <==> (
        input matches InputEvent::KeyRelease { key: b } && a@ == b@)),
{
}

} // verus!
