use vstd::prelude::*;

use crate::component::animation::Animator;
use crate::component::spatial::{Aabb, Position, Velocity};
use crate::ecs::error::{core_error_text, CoreError};
use crate::text::{debug_quoted, debug_quoted_string, decimal, push_decimal};
use crate::ecs::world::{World, WorldView};
use crate::event::payload::{DomainEvent, EventModel};
use crate::event::queue::QueueView;
use crate::json::{entries_get, Json, JsonValue};
use crate::runtime::rules::load::{intern_all, string_views};
use crate::runtime::schema::game::GameSchema;
use crate::runtime::template::{spawned_template, spawn_template, template_index, Template, TemplateStore};
use crate::tag::id::TagId;
use crate::tag::registry::TagRegistry;
use crate::tag::set::TagSet;

verus! {

/// The only manifest format version this engine reads.
pub const SUPPORTED_SCHEMA_VERSION: u32 = 1;

/// Why a project could not be loaded.
#[derive(Debug)]
pub enum BootstrapError {
    /// `game.toml` declares another format version.
    UnsupportedSchemaVersion(u32),
    /// `game.toml` selects a physics engine other than `"aabb"`.
    UnsupportedEngine(String),
    /// A tag name could not be interned.
    Tags(CoreError),
    /// A component name outside the closed set.
    UnknownComponent(String),
    /// Two templates share a name.
    DuplicateTemplate(String),
    /// The scene file for `expected` declares the scene `found`.
    SceneNameMismatch { expected: String, found: String },
    /// A scene entity names no loaded template.
    UnknownTemplate(String),
    /// An initial event that is not a JSON object.
    InitialEventNotObject,
    /// An initial event without a `type` member.
    InitialEventMissingType,
    /// An initial event whose `type` is not a string.
    InitialEventTypeNotString,
}

/// The message a bootstrap error reports; names are shown quoted as
/// `Debug` renders them.
pub open spec fn bootstrap_error_text(e: BootstrapError) -> Seq<char> {
    match e {
        BootstrapError::UnsupportedSchemaVersion(v) => "unsupported schema_version "@ + decimal(v as nat)
            + "; expected 1"@,
        BootstrapError::UnsupportedEngine(name) => "unsupported physics engine "@ + debug_quoted(name@),
        BootstrapError::Tags(c) => core_error_text(c),
        BootstrapError::UnknownComponent(name) => "unknown component "@ + debug_quoted(name@),
        BootstrapError::DuplicateTemplate(name) => "duplicate template "@ + debug_quoted(name@),
        BootstrapError::SceneNameMismatch { expected, found } => "scene file for "@ + debug_quoted(expected@)
            + " declared scene "@ + debug_quoted(found@),
        BootstrapError::UnknownTemplate(name) => "unknown template "@ + debug_quoted(name@),
        BootstrapError::InitialEventNotObject => "initial event must be an object"@,
        BootstrapError::InitialEventMissingType => "initial event object must contain string field \"type\""@,
        BootstrapError::InitialEventTypeNotString => "initial event field \"type\" must be a string"@,
    }
}

/// `prefix` followed by the quoted `name`.
fn quoted_after(prefix: &str, name: &String) -> (r: String)
    ensures
        r@ == prefix@ + debug_quoted(name@),
{
    let mut m = prefix.to_owned();
    let q = debug_quoted_string(name.as_str());
    m.append(q.as_str());
    m
}

impl BootstrapError {
    /// The message this error reports.
    pub fn message(&self) -> (r: String)
        ensures
            r@ == bootstrap_error_text(*self),
    {
        match self {
            BootstrapError::UnsupportedSchemaVersion(v) => {
                let mut m = "unsupported schema_version ".to_owned();
                push_decimal(&mut m, *v as u64);
                m.append("; expected 1");
                m
            },
            BootstrapError::UnsupportedEngine(name) => quoted_after("unsupported physics engine ", name),
            BootstrapError::Tags(c) => c.message(),
            BootstrapError::UnknownComponent(name) => quoted_after("unknown component ", name),
            BootstrapError::DuplicateTemplate(name) => quoted_after("duplicate template ", name),
            BootstrapError::SceneNameMismatch { expected, found } => {
                let mut m = quoted_after("scene file for ", expected);
                m.append(" declared scene ");
                let q = debug_quoted_string(found.as_str());
                m.append(q.as_str());
                m
            },
            BootstrapError::UnknownTemplate(name) => quoted_after("unknown template ", name),
            BootstrapError::InitialEventNotObject => "initial event must be an object".to_owned(),
            BootstrapError::InitialEventMissingType => "initial event object must contain string field \"type\"".to_owned(),
            BootstrapError::InitialEventTypeNotString => "initial event field \"type\" must be a string".to_owned(),
        }
    }
}

/// Checks the manifest format version declared by `game.toml`.
pub fn check_schema_version<S>(game: &GameSchema<S>) -> (r: Result<(), BootstrapError>)
    ensures
        game.schema_version == SUPPORTED_SCHEMA_VERSION <==> r is Ok,
        game.schema_version != SUPPORTED_SCHEMA_VERSION ==> (r matches Err(
            BootstrapError::UnsupportedSchemaVersion(v),
        ) && v == game.schema_version),
{
    if game.schema_version != SUPPORTED_SCHEMA_VERSION {
        Err(BootstrapError::UnsupportedSchemaVersion(game.schema_version))
    } else {
        Ok(())
    }
}

/// Checks that `game.toml` selects the `"aabb"` physics engine.
pub fn check_engine<S>(game: &GameSchema<S>) -> (r: Result<(), BootstrapError>)
    ensures
        game.physics.engine@ == "aabb"@ <==> r is Ok,
        game.physics.engine@ != "aabb"@ ==> (r matches Err(BootstrapError::UnsupportedEngine(n)) && n@
            == game.physics.engine@),
{
    let aabb = "aabb".to_owned();
    if game.physics.engine == aabb {
        Ok(())
    } else {
        Err(BootstrapError::UnsupportedEngine(game.physics.engine.clone()))
    }
}

/// Checks that the scene file loaded for `main_scene` declares that scene.
pub fn check_scene_name(main_scene: &String, scene_name: &String) -> (r: Result<(), BootstrapError>)
    ensures
        main_scene@ == scene_name@ <==> r is Ok,
        main_scene@ != scene_name@ ==> (r matches Err(BootstrapError::SceneNameMismatch { expected, found })
            && expected@ == main_scene@ && found@ == scene_name@),
{
    if *main_scene == *scene_name {
        Ok(())
    } else {
        Err(BootstrapError::SceneNameMismatch { expected: main_scene.clone(), found: scene_name.clone() })
    }
}

/// The set of tag ids in `ids`.
pub open spec fn id_set(ids: Seq<TagId>) -> Set<int> {
    Set::new(|i: int| exists|k: int| 0 <= k < ids.len() && ids[k].0 as int == i)
}

/// Interns `names` in order and collects their ids into a tag set.
pub fn tags_from_names(registry: &mut TagRegistry, names: &Vec<String>) -> (r: Result<TagSet, CoreError>)
    requires
        old(registry).wf(),
    ensures
        final(registry).wf(),
        final(registry)@ == intern_all(old(registry)@, string_views(names@)).0,
        match intern_all(old(registry)@, string_views(names@)).1 {
            Ok(ids) => r matches Ok(set) && set@ == id_set(ids),
            Err(e) => r == Err::<TagSet, CoreError>(e),
        },
{
    let ghost views = string_views(names@);
    let ghost start = registry@;
    let ghost mut ids: Seq<TagId> = Seq::empty();
    let mut tags = TagSet::new();
    let mut i: usize = 0;
    assert(views.take(0) =~= Seq::<Seq<char>>::empty());
    assert(tags@ =~= id_set(ids));
    while i < names.len()
        invariant
            registry.wf(),
            start == old(registry)@,
            views == string_views(names@),
            i <= names@.len(),
            intern_all(start, views.take(i as int)) == (registry@, Ok::<Seq<TagId>, CoreError>(ids)),
            tags@ == id_set(ids),
        decreases names@.len() - i,
    {
        assert(views.take(i + 1).drop_last() =~= views.take(i as int));
        assert(views.take(i + 1).last() == names@[i as int]@);
        let before = registry.intern(names[i].as_str());
        match before {
            Ok(id) => {
                assert(id.0 < 128) by {
                    assert(registry@.len() <= 128);
                }
                tags.insert(id);
                proof {
                    let old_ids = ids;
                    ids = ids.push(id);
                    assert forall|x: int| #[trigger] id_set(ids).contains(x) == (id_set(old_ids).contains(x) || x
                        == id.0 as int) by {
                        if x == id.0 as int {
                            assert(ids[old_ids.len() as int] == id);
                            assert(ids[old_ids.len() as int].0 as int == x);
                        }
                        if id_set(old_ids).contains(x) {
                            let k = choose|k: int| 0 <= k < old_ids.len() && old_ids[k].0 as int == x;
                            assert(ids[k] == old_ids[k]);
                            assert(ids[k].0 as int == x);
                        }
                        if id_set(ids).contains(x) {
                            let k = choose|k: int| 0 <= k < ids.len() && ids[k].0 as int == x;
                            if k < old_ids.len() {
                                assert(ids[k] == old_ids[k]);
                                assert(old_ids[k].0 as int == x);
                                assert(id_set(old_ids).contains(x));
                            }
                        }
                    }
                    assert(tags@ =~= id_set(ids));
                }
            },
            Err(e) => {
                proof {
                    crate::runtime::rules::load::lemma_intern_all_err_stays(start, views, (i + 1) as nat);
                }
                return Err(e);
            },
        }
        i = i + 1;
    }
    assert(views.take(names@.len() as int) =~= views);
    Ok(tags)
}

/// A decoded component value from a manifest.
#[derive(Debug)]
pub enum ComponentValue<S> {
    Position(Position<S>),
    Velocity(Velocity<S>),
    Aabb(Aabb<S>),
    Animator(Animator<S>),
}

/// Which component a manifest name denotes.
#[derive(PartialEq, Eq, Structural, Debug)]
pub enum ComponentSlot {
    Position,
    Velocity,
    Aabb,
    Animator,
}

/// The component slot named `name`, if it is one of the closed set.
pub open spec fn slot_named(name: Seq<char>) -> Option<ComponentSlot> {
    if name == "position"@ {
        Some(ComponentSlot::Position)
    } else if name == "velocity"@ {
        Some(ComponentSlot::Velocity)
    } else if name == "aabb"@ {
        Some(ComponentSlot::Aabb)
    } else if name == "animator"@ {
        Some(ComponentSlot::Animator)
    } else {
        None
    }
}

/// The component slot a manifest component name denotes; any other name
/// is refused.
pub fn component_slot(name: &String) -> (r: Result<ComponentSlot, BootstrapError>)
    ensures
        match slot_named(name@) {
            Some(s) => r == Ok::<ComponentSlot, BootstrapError>(s),
            None => r matches Err(BootstrapError::UnknownComponent(n)) && n@ == name@,
        },
{
    if *name == "position".to_owned() {
        Ok(ComponentSlot::Position)
    } else if *name == "velocity".to_owned() {
        Ok(ComponentSlot::Velocity)
    } else if *name == "aabb".to_owned() {
        Ok(ComponentSlot::Aabb)
    } else if *name == "animator".to_owned() {
        Ok(ComponentSlot::Animator)
    } else {
        Err(BootstrapError::UnknownComponent(name.clone()))
    }
}

/// Template `t` with component `c` set.
pub open spec fn with_value<S>(t: Template<S>, c: ComponentValue<S>) -> Template<S> {
    match c {
        ComponentValue::Position(p) => Template { position: Some(p), ..t },
        ComponentValue::Velocity(v) => Template { velocity: Some(v), ..t },
        ComponentValue::Aabb(a) => Template { aabb: Some(a), ..t },
        ComponentValue::Animator(a) => Template { animator: Some(a), ..t },
    }
}

/// Template `t` with components `cs` set in order (a later value for the
/// same slot wins).
pub open spec fn with_values<S>(t: Template<S>, cs: Seq<ComponentValue<S>>) -> Template<S>
    decreases cs.len(),
{
    if cs.len() == 0 {
        t
    } else {
        with_value(with_values(t, cs.drop_last()), cs.last())
    }
}

/// Setting components keeps a template's name and tags.
proof fn lemma_with_values_keeps<S>(t: Template<S>, cs: Seq<ComponentValue<S>>)
    ensures
        with_values(t, cs).name == t.name,
        with_values(t, cs).tags == t.tags,
    decreases cs.len(),
{
    if cs.len() > 0 {
        lemma_with_values_keeps(t, cs.drop_last());
    }
}

/// Sets decoded components on a template, in order.
pub fn apply_components<S>(template: &mut Template<S>, components: Vec<ComponentValue<S>>)
    ensures
        *final(template) == with_values(*old(template), components@),
{
    let ghost all = components@;
    let mut rest = components;
    let ghost mut done: int = 0;
    assert(all.take(0) =~= Seq::<ComponentValue<S>>::empty());
    assert(all.skip(0) =~= all);
    while rest.len() > 0
        invariant
            0 <= done <= all.len(),
            rest@ == all.skip(done),
            *template == with_values(*old(template), all.take(done)),
        decreases rest@.len(),
    {
        let c = rest.remove(0);
        assert(all.take(done + 1).drop_last() =~= all.take(done));
        assert(all.take(done + 1).last() == c);
        match c {
            ComponentValue::Position(p) => {
                template.position = Some(p);
            },
            ComponentValue::Velocity(v) => {
                template.velocity = Some(v);
            },
            ComponentValue::Aabb(a) => {
                template.aabb = Some(a);
            },
            ComponentValue::Animator(a) => {
                template.animator = Some(a);
            },
        }
        proof {
            done = done + 1;
        }
        assert(rest@ =~= all.skip(done));
    }
    assert(all.take(done) =~= all);
}

/// Builds a template: interns its tag names, then sets its components.
pub fn template_from_parts<S>(
    name: String,
    tag_names: &Vec<String>,
    components: Vec<ComponentValue<S>>,
    registry: &mut TagRegistry,
) -> (r: Result<Template<S>, BootstrapError>)
    requires
        old(registry).wf(),
    ensures
        final(registry).wf(),
        final(registry)@ == intern_all(old(registry)@, string_views(tag_names@)).0,
        match intern_all(old(registry)@, string_views(tag_names@)).1 {
            Ok(ids) => r matches Ok(t) && t.name == name && t.tags@ == id_set(ids) && t == with_values(
                Template { name: t.name, tags: t.tags, position: None, velocity: None, aabb: None, animator: None },
                components@,
            ),
            Err(e) => r matches Err(BootstrapError::Tags(x)) && x == e,
        },
{
    let tags = match tags_from_names(registry, tag_names) {
        Ok(t) => t,
        Err(e) => return Err(BootstrapError::Tags(e)),
    };
    let mut template = Template::named(name);
    template.tags = tags;
    assert(template == Template::<S> {
        name: template.name,
        tags: template.tags,
        position: None,
        velocity: None,
        aabb: None,
        animator: None,
    });
    let ghost base = template;
    apply_components(&mut template, components);
    proof {
        lemma_with_values_keeps(base, components@);
    }
    Ok(template)
}

/// Adds a template to the store; a second template with the same name is
/// refused.
pub fn add_template<S>(store: &mut TemplateStore<S>, template: Template<S>) -> (r: Result<(), BootstrapError>)
    requires
        old(store).wf(),
    ensures
        final(store).wf(),
        match template_index(old(store).entries(), template.name@) {
            Some(_) => r matches Err(BootstrapError::DuplicateTemplate(n)) && n@ == template.name@
                && final(store).entries() == old(store).entries(),
            None => r is Ok && final(store).entries() == old(store).entries().push(template),
        },
{
    if store.get(template.name.as_str()).is_some() {
        return Err(BootstrapError::DuplicateTemplate(template.name));
    }
    store.insert(template);
    Ok(())
}

// ---------------------------------------------------------------------
// Initial events.
// ---------------------------------------------------------------------

/// An initial scene event: a JSON object whose string member `type` is
/// the event name and whose other members are the payload.
pub open spec fn initial_event_outcome(j: Json) -> Result<EventModel, BootstrapError> {
    match j {
        Json::Object(m) => match entries_get(m, "type"@) {
            None => Err(BootstrapError::InitialEventMissingType),
            Some(Json::Str(name)) => Ok(
                EventModel {
                    name,
                    payload: m.remove(choose|i: int| 0 <= i < m.len() && m[i].0 == "type"@),
                },
            ),
            Some(_) => Err(BootstrapError::InitialEventTypeNotString),
        },
        _ => Err(BootstrapError::InitialEventNotObject),
    }
}

/// Converting initial events in order; the first failure wins.
pub open spec fn initial_events_outcome(js: Seq<Json>) -> Result<Seq<EventModel>, BootstrapError>
    decreases js.len(),
{
    if js.len() == 0 {
        Ok(Seq::empty())
    } else {
        match initial_events_outcome(js.drop_last()) {
            Err(e) => Err(e),
            Ok(done) => match initial_event_outcome(js.last()) {
                Err(e) => Err(e),
                Ok(m) => Ok(done.push(m)),
            },
        }
    }
}

/// The views of a sequence of JSON values.
pub open spec fn value_views(v: Seq<JsonValue>) -> Seq<Json> {
    v.map_values(|x: JsonValue| x@)
}

/// Converts an initial scene event into a domain event.
pub fn domain_event_from_value(value: JsonValue) -> (r: Result<DomainEvent, BootstrapError>)
    ensures
        match initial_event_outcome(value@) {
            Ok(m) => r matches Ok(e) && crate::event::payload::event_model(e) == m,
            Err(x) => r matches Err(y) && y == x,
        },
{
    match value {
        JsonValue::Object(mut payload) => {
            let ghost before = payload@;
            match payload.remove("type") {
                None => Err(BootstrapError::InitialEventMissingType),
                Some(JsonValue::String(name)) => {
                    proof {
                        let i = choose|i: int| 0 <= i < before.len() && before[i].0 == "type"@ && payload@ == before.remove(i);
                        let j = choose|j: int| 0 <= j < before.len() && before[j].0 == "type"@;
                        if i != j {
                            if i < j {
                                assert(before[i].0 != before[j].0);
                            } else {
                                assert(before[j].0 != before[i].0);
                            }
                        }
                    }
                    Ok(DomainEvent::custom(name, payload))
                },
                Some(_) => Err(BootstrapError::InitialEventTypeNotString),
            }
        },
        _ => Err(BootstrapError::InitialEventNotObject),
    }
}

proof fn lemma_initial_events_err_stays(js: Seq<Json>, k: nat)
    requires
        k <= js.len(),
        initial_events_outcome(js.take(k as int)) is Err,
    ensures
        initial_events_outcome(js) == initial_events_outcome(js.take(k as int)),
    decreases js.len() - k,
{
    if k < js.len() {
        assert(js.take(k + 1int).drop_last() =~= js.take(k as int));
        lemma_initial_events_err_stays(js, k + 1);
    } else {
        assert(js.take(k as int) =~= js);
    }
}

// ---------------------------------------------------------------------
// Spawning the scene.
// ---------------------------------------------------------------------

/// One scene entity with its decoded component overrides.
#[derive(Debug)]
pub struct SceneEntity<S> {
    /// Name of the template it instantiates.
    pub template: String,
    /// Components set on top of the template's, in order.
    pub overrides: Vec<ComponentValue<S>>,
}

/// Spawning scene entities in order: each instantiates its template with
/// its overrides applied. The first entity naming no template stops the
/// scene; its template name is the error.
pub open spec fn spawn_entities<S, R>(w: WorldView<S, R>, store: TemplateStore<S>, ents: Seq<SceneEntity<S>>) -> Result<
    WorldView<S, R>,
    Seq<char>,
>
    decreases ents.len(),
{
    if ents.len() == 0 {
        Ok(w)
    } else {
        match spawn_entities(w, store, ents.drop_last()) {
            Err(n) => Err(n),
            Ok(w1) => {
                let se = ents.last();
                match store.lookup(se.template@) {
                    None => Err(se.template@),
                    Some(t) => Ok(spawned_template(w1, with_values(t, se.overrides@)).0),
                }
            },
        }
    }
}

proof fn lemma_spawn_entities_err_stays<S, R>(w: WorldView<S, R>, store: TemplateStore<S>, ents: Seq<SceneEntity<S>>, k: nat)
    requires
        k <= ents.len(),
        spawn_entities(w, store, ents.take(k as int)) is Err,
    ensures
        spawn_entities(w, store, ents) == spawn_entities(w, store, ents.take(k as int)),
    decreases ents.len() - k,
{
    if k < ents.len() {
        assert(ents.take(k + 1int).drop_last() =~= ents.take(k as int));
        lemma_spawn_entities_err_stays(w, store, ents, k + 1);
    } else {
        assert(ents.take(k as int) =~= ents);
    }
}

/// Spawns the scene's entities from their templates, then queues the
/// scene's initial events (all of which are converted before any is
/// queued).
pub fn spawn_scene<S: Copy, R>(
    world: &mut World<S, R>,
    entities: Vec<SceneEntity<S>>,
    initial_events: Vec<JsonValue>,
    templates: &TemplateStore<S>,
) -> (r: Result<(), BootstrapError>)
    requires
        old(world).wf(),
        templates.wf(),
        old(world)@.alive.len() + entities@.len() <= u32::MAX,
    ensures
        final(world).wf(),
        match spawn_entities(old(world)@, *templates, entities@) {
            Err(n) => r matches Err(BootstrapError::UnknownTemplate(x)) && x@ == n,
            Ok(w1) => match initial_events_outcome(value_views(initial_events@)) {
                Err(e) => r == Err::<(), BootstrapError>(e),
                Ok(evs) => r is Ok && final(world)@ == (WorldView {
                    events: QueueView { domain: w1.events.domain + evs, marker: w1.events.marker },
                    ..w1
                }),
            },
        },
{
    let ghost all = entities@;
    let ghost start = world@;
    let mut rest = entities;
    let ghost mut done: int = 0;
    assert(all.take(0) =~= Seq::<SceneEntity<S>>::empty());
    assert(all.skip(0) =~= all);
    while rest.len() > 0
        invariant
            world.wf(),
            templates.wf(),
            start == old(world)@,
            all == entities@,
            0 <= done <= all.len(),
            rest@ == all.skip(done),
            start.alive.len() + all.len() <= u32::MAX,
            world@.alive.len() <= start.alive.len() + done,
            spawn_entities(start, *templates, all.take(done)) == Ok::<WorldView<S, R>, Seq<char>>(world@),
        decreases rest@.len(),
    {
        let se = rest.remove(0);
        assert(all.take(done + 1).drop_last() =~= all.take(done));
        assert(all.take(done + 1).last() == se);
        let SceneEntity { template: name, overrides } = se;
        let found = templates.get(name.as_str());
        match found {
            None => {
                proof {
                    lemma_spawn_entities_err_stays(start, *templates, all, (done + 1) as nat);
                }
                return Err(BootstrapError::UnknownTemplate(name));
            },
            Some(t) => {
                let mut instance = t.clone();
                apply_components(&mut instance, overrides);
                let _ = spawn_template(world, instance);
            },
        }
        proof {
            done = done + 1;
        }
        assert(rest@ =~= all.skip(done));
    }
    assert(all.take(done) =~= all);
    let ghost w1 = world@;
    let ghost js = value_views(initial_events@);
    let mut converted: Vec<DomainEvent> = Vec::new();
    let mut pending = initial_events;
    let ghost mut k: int = 0;
    assert(js.take(0) =~= Seq::<Json>::empty());
    assert(crate::event::queue::event_models(converted@) =~= Seq::<EventModel>::empty());
    assert(pending@ =~= initial_events@.skip(0));
    while pending.len() > 0
        invariant
            world@ == w1,
            world.wf(),
            spawn_entities(old(world)@, *templates, entities@) == Ok::<WorldView<S, R>, Seq<char>>(w1),
            js == value_views(initial_events@),
            0 <= k <= js.len(),
            js.len() == initial_events@.len(),
            pending@ == initial_events@.skip(k),
            initial_events_outcome(js.take(k)) == Ok::<Seq<EventModel>, BootstrapError>(
                crate::event::queue::event_models(converted@),
            ),
        decreases pending@.len(),
    {
        let v = pending.remove(0);
        assert(js.take(k + 1).drop_last() =~= js.take(k));
        assert(js.take(k + 1).last() == v@);
        match domain_event_from_value(v) {
            Err(e) => {
                proof {
                    lemma_initial_events_err_stays(js, (k + 1) as nat);
                }
                return Err(e);
            },
            Ok(ev) => {
                let ghost before = converted@;
                converted.push(ev);
                assert(crate::event::queue::event_models(converted@) =~= crate::event::queue::event_models(
                    before,
                ).push(crate::event::payload::event_model(ev)));
            },
        }
        proof {
            k = k + 1;
        }
        assert(pending@ =~= initial_events@.skip(k));
    }
    assert(js.take(k) =~= js);
    let ghost evs = crate::event::queue::event_models(converted@);
    let mut queued = converted;
    let ghost mut q: int = 0;
    assert(w1.events.domain + evs.take(0) =~= w1.events.domain);
    assert(queued@ =~= converted@.skip(0));
    while queued.len() > 0
        invariant
            world.wf(),
            spawn_entities(old(world)@, *templates, entities@) == Ok::<WorldView<S, R>, Seq<char>>(w1),
            initial_events_outcome(value_views(initial_events@)) == Ok::<Seq<EventModel>, BootstrapError>(evs),
            0 <= q <= evs.len(),
            evs == crate::event::queue::event_models(converted@),
            queued@ == converted@.skip(q),
            world@ == (WorldView {
                events: QueueView { domain: w1.events.domain + evs.take(q), marker: w1.events.marker },
                ..w1
            }),
        decreases queued@.len(),
    {
        let ev = queued.remove(0);
        assert(crate::event::payload::event_model(ev) == evs[q]);
        world.event_queue_mut().emit_domain(ev);
        assert(w1.events.domain + evs.take(q + 1) =~= (w1.events.domain + evs.take(q)).push(evs[q]));
        proof {
            q = q + 1;
        }
        assert(queued@ =~= converted@.skip(q));
    }
    assert(evs.take(q) =~= evs);
    Ok(())
}

/// Law: component overrides. Setting a sequence of components on a
/// template gives each slot the last value the sequence holds for it, and
/// leaves a slot the sequence does not mention as the template had it; the
/// name and tags stay.
pub proof fn law_overrides_last_wins<S>(t: Template<S>, cs: Seq<ComponentValue<S>>)
    ensures
        with_values(t, cs).name == t.name,
        with_values(t, cs).tags == t.tags,
        forall|k: int|
            #![trigger cs[k]->Position_0]
            0 <= k < cs.len() && cs[k] is Position && (forall|l: int| k < l < cs.len() ==> !(cs[l] is Position)) ==> with_values(
                t,
                cs,
            ).position == Some(cs[k]->Position_0),
        (forall|k: int| 0 <= k < cs.len() ==> !(cs[k] is Position)) ==> with_values(t, cs).position == t.position,
        forall|k: int|
            #![trigger cs[k]->Velocity_0]
            0 <= k < cs.len() && cs[k] is Velocity && (forall|l: int| k < l < cs.len() ==> !(cs[l] is Velocity)) ==> with_values(
                t,
                cs,
            ).velocity == Some(cs[k]->Velocity_0),
        (forall|k: int| 0 <= k < cs.len() ==> !(cs[k] is Velocity)) ==> with_values(t, cs).velocity == t.velocity,
        forall|k: int|
            #![trigger cs[k]->Aabb_0]
            0 <= k < cs.len() && cs[k] is Aabb && (forall|l: int| k < l < cs.len() ==> !(cs[l] is Aabb)) ==> with_values(
                t,
                cs,
            ).aabb == Some(cs[k]->Aabb_0),
        (forall|k: int| 0 <= k < cs.len() ==> !(cs[k] is Aabb)) ==> with_values(t, cs).aabb == t.aabb,
        forall|k: int|
            #![trigger cs[k]->Animator_0]
            0 <= k < cs.len() && cs[k] is Animator && (forall|l: int| k < l < cs.len() ==> !(cs[l] is Animator)) ==> with_values(
                t,
                cs,
            ).animator == Some(cs[k]->Animator_0),
        (forall|k: int| 0 <= k < cs.len() ==> !(cs[k] is Animator)) ==> with_values(t, cs).animator == t.animator,
    decreases cs.len(),
{
    lemma_with_values_keeps(t, cs);
    if cs.len() > 0 {
        let init = cs.drop_last();
        law_overrides_last_wins(t, init);
        assert forall|k: int| 0 <= k < init.len() implies init[k] == cs[k] by {}
    }
}

} // verus!
