use vstd::prelude::*;

use crate::component::animation::Animator;
use crate::component::spatial::{Aabb, Position, Velocity};
use crate::ecs::component::Component;
use crate::ecs::entity::Entity;
use crate::ecs::laws::{law_component_read_after_write, law_component_write_keeps_other_types, law_spawn_adds_one_entity};
use crate::ecs::error::CoreError;
use crate::ecs::world::{World, WorldView};
use crate::tag::set::TagSet;

verus! {

/// One instantiable entity template: tag names already interned into a
/// tag set, and the closed set of components carried inline.
#[derive(Debug)]
pub struct Template<S> {
    pub name: String,
    pub tags: TagSet,
    pub position: Option<Position<S>>,
    pub velocity: Option<Velocity<S>>,
    pub aabb: Option<Aabb<S>>,
    pub animator: Option<Animator<S>>,
}

impl<S: Copy> Clone for Template<S> {
    fn clone(&self) -> (r: Self)
        ensures
            r == *self,
    {
        Template {
            name: self.name.clone(),
            tags: self.tags,
            position: self.position,
            velocity: self.velocity,
            aabb: self.aabb,
            animator: match &self.animator {
                Some(a) => Some(a.clone()),
                None => None,
            },
        }
    }
}

impl<S> Template<S> {
    /// A template named `name` with no tags and no components.
    pub fn named(name: String) -> (r: Self)
        ensures
            r.name == name,
            r.tags@ == Set::<int>::empty(),
            r.position is None,
            r.velocity is None,
            r.aabb is None,
            r.animator is None,
    {
        Template { name, tags: TagSet::new(), position: None, velocity: None, aabb: None, animator: None }
    }
}

/// Registry of templates by name.
#[derive(Debug)]
pub struct TemplateStore<S> {
    templates: Vec<Template<S>>,
}

/// The position of the template named `name` in `ts`.
pub open spec fn template_index<S>(ts: Seq<Template<S>>, name: Seq<char>) -> Option<int> {
    if exists|i: int| 0 <= i < ts.len() && ts[i].name@ == name {
        Some(choose|i: int| 0 <= i < ts.len() && ts[i].name@ == name)
    } else {
        None
    }
}

impl<S> TemplateStore<S> {
    /// The stored templates, in first-insertion order.
    pub closed spec fn entries(&self) -> Seq<Template<S>> {
        self.templates@
    }

    /// Template names are distinct.
    pub open spec fn wf(&self) -> bool {
        forall|i: int, j: int|
            0 <= i < j < self.entries().len() ==> self.entries()[i].name@ != self.entries()[j].name@
    }

    /// The template named `name`, if any.
    pub open spec fn lookup(&self, name: Seq<char>) -> Option<Template<S>> {
        match template_index(self.entries(), name) {
            Some(i) => Some(self.entries()[i]),
            None => None,
        }
    }

    /// An empty store.
    pub fn new() -> (r: Self)
        ensures
            r.wf(),
            r.entries().len() == 0,
    {
        TemplateStore { templates: Vec::new() }
    }

    fn find(&self, name: &String) -> (r: Option<usize>)
        ensures
            r matches Some(i) ==> i < self.entries().len() && self.entries()[i as int].name@ == name@,
            r is None ==> forall|i: int| 0 <= i < self.entries().len() ==> self.entries()[i].name@ != name@,
    {
        let mut i: usize = 0;
        while i < self.templates.len()
            invariant
                i <= self.templates@.len(),
                forall|k: int| 0 <= k < i ==> self.templates@[k].name@ != name@,
            decreases self.templates@.len() - i,
        {
            if self.templates[i].name == *name {
                return Some(i);
            }
            i = i + 1;
        }
        None
    }

    /// Stores `template` under its name, replacing a template of the same
    /// name in place.
    pub fn insert(&mut self, template: Template<S>)
        requires
            old(self).wf(),
        ensures
            final(self).wf(),
            match template_index(old(self).entries(), template.name@) {
                Some(i) => final(self).entries() == old(self).entries().update(i, template),
                None => final(self).entries() == old(self).entries().push(template),
            },
    {
        match self.find(&template.name) {
            Some(i) => {
                proof {
                    let j = choose|j: int|
                        0 <= j < old(self).entries().len() && old(self).entries()[j].name@ == template.name@;
                    if j != i {
                        if j < i {
                            assert(old(self).entries()[j].name@ != old(self).entries()[i as int].name@);
                        } else {
                            assert(old(self).entries()[i as int].name@ != old(self).entries()[j].name@);
                        }
                    }
                }
                self.templates.set(i, template);
            },
            None => {
                self.templates.push(template);
            },
        }
    }

    /// The template named `name`.
    pub fn get(&self, name: &str) -> (r: Option<&Template<S>>)
        requires
            self.wf(),
        ensures
            match self.lookup(name@) {
                Some(t) => r == Some(&t),
                None => r is None,
            },
    {
        let owned = name.to_owned();
        match self.find(&owned) {
            Some(i) => {
                proof {
                    let j = choose|j: int| 0 <= j < self.entries().len() && self.entries()[j].name@ == name@;
                    if j != i {
                        if j < i {
                            assert(self.entries()[j].name@ != self.entries()[i as int].name@);
                        } else {
                            assert(self.entries()[i as int].name@ != self.entries()[j].name@);
                        }
                    }
                }
                Some(&self.templates[i])
            },
            None => None,
        }
    }

    /// Number of stored templates.
    pub fn len(&self) -> (r: usize)
        ensures
            r == self.entries().len(),
    {
        self.templates.len()
    }

    /// Whether no template is stored.
    pub fn is_empty(&self) -> (r: bool)
        ensures
            r == (self.entries().len() == 0),
    {
        self.templates.len() == 0
    }
}

/// World `w` with component `c`, if any, attached to `e`.
pub open spec fn with_optional<S, R, T: Component<S>>(w: WorldView<S, R>, e: Entity, c: Option<T>) -> WorldView<S, R> {
    match c {
        Some(x) => w.with_component(e, Some(x)),
        None => w,
    }
}

/// The world after spawning template `t`, and the new entity: a fresh
/// entity carrying the template's tag set and each component it has.
pub open spec fn spawned_template<S, R>(w: WorldView<S, R>, t: Template<S>) -> (WorldView<S, R>, Entity) {
    let (w1, e) = w.spawned();
    let w2 = w1.with_component(e, Some(t.tags));
    let w3 = with_optional(w2, e, t.position);
    let w4 = with_optional(w3, e, t.velocity);
    let w5 = with_optional(w4, e, t.aabb);
    let w6 = with_optional(w5, e, t.animator);
    (w6, e)
}

/// Spawns one entity from a template.
pub fn spawn_template<S, R>(world: &mut World<S, R>, template: Template<S>) -> (r: Result<Entity, CoreError>)
    requires
        old(world).wf(),
        old(world)@.free.len() > 0 || old(world)@.alive.len() <= u32::MAX,
    ensures
        final(world).wf(),
        r == Ok::<Entity, CoreError>(spawned_template(old(world)@, template).1),
        final(world)@ == spawned_template(old(world)@, template).0,
{
    let entity = world.spawn().finish();
    let Template { name: _, tags, position, velocity, aabb, animator } = template;
    let r = world.insert(entity, tags);
    assert(r is Ok);
    match position {
        Some(c) => {
            let r = world.insert(entity, c);
            assert(r is Ok);
        },
        None => {},
    }
    match velocity {
        Some(c) => {
            let r = world.insert(entity, c);
            assert(r is Ok);
        },
        None => {},
    }
    match aabb {
        Some(c) => {
            let r = world.insert(entity, c);
            assert(r is Ok);
        },
        None => {},
    }
    match animator {
        Some(c) => {
            let r = world.insert(entity, c);
            assert(r is Ok);
        },
        None => {},
    }
    Ok(entity)
}

/// Law: a stored template is found again by its name.
pub proof fn law_template_read_after_write<S>(before: TemplateStore<S>, t: Template<S>, after: TemplateStore<S>)
    requires
        before.wf(),
        after.wf(),
        match template_index(before.entries(), t.name@) {
            Some(i) => after.entries() == before.entries().update(i, t),
            None => after.entries() == before.entries().push(t),
        },
    ensures
        after.lookup(t.name@) == Some(t),
{
    let k = match template_index(before.entries(), t.name@) {
        Some(i) => i,
        None => before.entries().len() as int,
    };
    assert(after.entries()[k] == t);
    let j = choose|j: int| 0 <= j < after.entries().len() && after.entries()[j].name@ == t.name@;
    if j != k {
        if j < k {
            assert(after.entries()[j].name@ != after.entries()[k].name@);
        } else {
            assert(after.entries()[k].name@ != after.entries()[j].name@);
        }
    }
}

/// Law: the entity spawned from a template is new and carries exactly
/// the template's components: its tag set, and its position, velocity,
/// bounding box and animator where the template has them (none where it
/// has none). Every entity live before stays live.
pub proof fn law_spawned_template_components<S, R>(w: WorldView<S, R>, t: Template<S>)
    requires
        w.wf(),
        w.free.len() > 0 || w.alive.len() <= u32::MAX,
    ensures
        ({
            let (s2, e) = spawned_template(w, t);
            &&& s2.wf()
            &&& s2.live(e)
            &&& !w.live(e)
            &&& forall|x: Entity| w.live(x) ==> s2.live(x)
            &&& s2.component::<TagSet>(e) == Some(t.tags)
            &&& s2.component::<Position<S>>(e) == t.position
            &&& s2.component::<Velocity<S>>(e) == t.velocity
            &&& s2.component::<Aabb<S>>(e) == t.aabb
            &&& s2.component::<Animator<S>>(e) == t.animator
        }),
{
    let (s1, e) = w.spawned();
    law_spawn_adds_one_entity::<S, R, TagSet>(w);
    law_spawn_adds_one_entity::<S, R, Position<S>>(w);
    law_spawn_adds_one_entity::<S, R, Velocity<S>>(w);
    law_spawn_adds_one_entity::<S, R, Aabb<S>>(w);
    law_spawn_adds_one_entity::<S, R, Animator<S>>(w);
    w.lemma_spawned_wf();
    // tags
    let s2 = s1.with_component(e, Some(t.tags));
    law_component_read_after_write::<S, R, TagSet>(s1, e, t.tags);
    law_component_write_keeps_other_types::<S, R, TagSet, Position<S>>(s1, e, Some(t.tags), e);
    law_component_write_keeps_other_types::<S, R, TagSet, Velocity<S>>(s1, e, Some(t.tags), e);
    law_component_write_keeps_other_types::<S, R, TagSet, Aabb<S>>(s1, e, Some(t.tags), e);
    law_component_write_keeps_other_types::<S, R, TagSet, Animator<S>>(s1, e, Some(t.tags), e);
    // position
    let s3 = with_optional(s2, e, t.position);
    if let Some(c) = t.position {
        law_component_read_after_write::<S, R, Position<S>>(s2, e, c);
        law_component_write_keeps_other_types::<S, R, Position<S>, TagSet>(s2, e, Some(c), e);
        law_component_write_keeps_other_types::<S, R, Position<S>, Velocity<S>>(s2, e, Some(c), e);
        law_component_write_keeps_other_types::<S, R, Position<S>, Aabb<S>>(s2, e, Some(c), e);
        law_component_write_keeps_other_types::<S, R, Position<S>, Animator<S>>(s2, e, Some(c), e);
    }
    // velocity
    let s4 = with_optional(s3, e, t.velocity);
    if let Some(c) = t.velocity {
        law_component_read_after_write::<S, R, Velocity<S>>(s3, e, c);
        law_component_write_keeps_other_types::<S, R, Velocity<S>, TagSet>(s3, e, Some(c), e);
        law_component_write_keeps_other_types::<S, R, Velocity<S>, Position<S>>(s3, e, Some(c), e);
        law_component_write_keeps_other_types::<S, R, Velocity<S>, Aabb<S>>(s3, e, Some(c), e);
        law_component_write_keeps_other_types::<S, R, Velocity<S>, Animator<S>>(s3, e, Some(c), e);
    }
    // aabb
    let s5 = with_optional(s4, e, t.aabb);
    if let Some(c) = t.aabb {
        law_component_read_after_write::<S, R, Aabb<S>>(s4, e, c);
        law_component_write_keeps_other_types::<S, R, Aabb<S>, TagSet>(s4, e, Some(c), e);
        law_component_write_keeps_other_types::<S, R, Aabb<S>, Position<S>>(s4, e, Some(c), e);
        law_component_write_keeps_other_types::<S, R, Aabb<S>, Velocity<S>>(s4, e, Some(c), e);
        law_component_write_keeps_other_types::<S, R, Aabb<S>, Animator<S>>(s4, e, Some(c), e);
    }
    // animator
    let s6 = with_optional(s5, e, t.animator);
    if let Some(c) = t.animator {
        law_component_read_after_write::<S, R, Animator<S>>(s5, e, c);
        law_component_write_keeps_other_types::<S, R, Animator<S>, TagSet>(s5, e, Some(c), e);
        law_component_write_keeps_other_types::<S, R, Animator<S>, Position<S>>(s5, e, Some(c), e);
        law_component_write_keeps_other_types::<S, R, Animator<S>, Velocity<S>>(s5, e, Some(c), e);
        law_component_write_keeps_other_types::<S, R, Animator<S>, Aabb<S>>(s5, e, Some(c), e);
    }
    assert(spawned_template(w, t) == (s6, e));
}

} // verus!
