use vstd::prelude::*;

use crate::ecs::component::{Columns, ColumnsView, Component, ComponentKind};
use crate::ecs::entity::Entity;
use crate::ecs::error::CoreError;
use crate::event::queue::{EventQueue, QueueView};
use crate::tag::registry::TagRegistry;

verus! {

/// Everything a world holds.
pub struct WorldView<S, R> {
    /// Generation counter of each entity slot.
    pub generations: Seq<u32>,
    /// Whether each slot is occupied by a live entity.
    pub alive: Seq<bool>,
    /// Dead slots awaiting reuse; the last one is reused first.
    pub free: Seq<u32>,
    /// Component columns, indexed by slot.
    pub columns: ColumnsView<S>,
    /// Interned tag names.
    pub tag_registry: TagRegistry,
    /// Pending events.
    pub events: QueueView,
    /// The user resource, if inserted.
    pub resource: Option<R>,
    /// Every handle despawned so far.
    pub despawned_handles: Set<Entity>,
}

/// The generation a slot gets when its entity is despawned: one more,
/// saturating at the counter's maximum.
pub open spec fn next_generation(g: u32) -> u32 {
    if g == u32::MAX {
        g
    } else {
        (g + 1) as u32
    }
}

/// The live entities among the first `n` slots, in slot order.
pub open spec fn live_prefix(generations: Seq<u32>, alive: Seq<bool>, n: nat) -> Seq<Entity>
    decreases n,
{
    if n == 0 {
        Seq::empty()
    } else {
        let rest = live_prefix(generations, alive, (n - 1) as nat);
        if alive[n - 1] {
            rest.push(Entity { index: (n - 1) as u32, generation: generations[n - 1] })
        } else {
            rest
        }
    }
}

impl<S, R> WorldView<S, R> {
    /// `e` names the entity currently occupying its slot.
    pub open spec fn live(self, e: Entity) -> bool {
        &&& (e.index as int) < self.alive.len()
        &&& self.alive[e.index as int]
        &&& self.generations[e.index as int] == e.generation
    }

    /// The component of type `T` attached to `e`, if `e` is live and has one.
    pub open spec fn component<T: Component<S>>(self, e: Entity) -> Option<T> {
        if self.live(e) {
            T::column_of(self.columns)[e.index as int]
        } else {
            None
        }
    }

    /// Whether live entity `e` has a component in the column for `kind`.
    pub open spec fn has_kind(self, e: Entity, kind: ComponentKind) -> bool {
        self.live(e) && self.columns.has(kind, e.index as int)
    }

    /// All live entities, in slot order.
    pub open spec fn live_entities(self) -> Seq<Entity> {
        live_prefix(self.generations, self.alive, self.alive.len())
    }

    /// Slot `i` is retired: its generation counter is exhausted, so it
    /// stays dead and is never handed out again.
    pub open spec fn retired(self, i: int) -> bool {
        &&& !self.alive[i]
        &&& !self.free.contains(i as u32)
        &&& self.generations[i] == u32::MAX
    }

    /// Slot bookkeeping is consistent: the free list holds dead slots,
    /// once each; a dead slot is on the free list unless it is retired;
    /// dead slots hold no components; every column covers every slot; slot
    /// indices fit an `Entity`. A despawned handle is behind its slot's
    /// generation, or names a retired slot, so no live entity ever equals
    /// a despawned handle.
    pub open spec fn wf(self) -> bool {
        &&& self.generations.len() == self.alive.len()
        &&& self.alive.len() <= u32::MAX as nat + 1
        &&& self.columns.all_len(self.alive.len())
        &&& forall|k: int| 0 <= k < self.free.len() ==> (self.free[k] as int) < self.alive.len() && !self.alive[self.free[k] as int]
        &&& forall|k: int, l: int| 0 <= k < l < self.free.len() ==> self.free[k] != self.free[l]
        &&& forall|i: int| 0 <= i < self.alive.len() && !self.alive[i] ==> self.free.contains(i as u32)
            || self.generations[i] == u32::MAX
        &&& forall|i: int, kind: ComponentKind| 0 <= i < self.alive.len() && !self.alive[i] ==> !self.columns.has(kind, i)
        &&& self.tag_registry.wf()
        &&& forall|e: Entity| #[trigger] self.despawned_handles.contains(e) ==> {
            &&& (e.index as int) < self.alive.len()
            &&& (e.generation < self.generations[e.index as int] || (e.generation
                == self.generations[e.index as int] && self.retired(e.index as int)))
        }
        &&& forall|e: Entity| #[trigger] self.despawned_handles.contains(e) ==> !self.live(e)
    }

    /// The world after `spawn`, and the entity it hands out: the most
    /// recently freed slot is reused with its current generation, otherwise
    /// a new slot with generation 0 is appended.
    pub open spec fn spawned(self) -> (Self, Entity) {
        if self.free.len() > 0 {
            let i = self.free.last();
            (
                WorldView { alive: self.alive.update(i as int, true), free: self.free.drop_last(), ..self },
                Entity { index: i, generation: self.generations[i as int] },
            )
        } else {
            let i = self.alive.len();
            (
                WorldView {
                    generations: self.generations.push(0),
                    alive: self.alive.push(true),
                    columns: self.columns.push_empty(),
                    ..self
                },
                Entity { index: i as u32, generation: 0 },
            )
        }
    }

    /// The world after despawning live entity `e`: its slot dies, its
    /// generation advances (saturating), it loses its components and `e`
    /// joins the despawned handles. The slot joins the free list unless its
    /// generation was already exhausted, in which case it is retired.
    pub open spec fn despawned(self, e: Entity) -> Self {
        let i = e.index as int;
        let g = self.generations[i];
        WorldView {
            alive: self.alive.update(i, false),
            generations: self.generations.update(i, next_generation(g)),
            free: if g < u32::MAX {
                self.free.push(e.index)
            } else {
                self.free
            },
            columns: self.columns.clear(i),
            despawned_handles: self.despawned_handles.insert(e),
            ..self
        }
    }

    /// Spawning keeps the world well formed, and the handed-out entity is
    /// live in it.
    pub proof fn lemma_spawned_wf(self)
        requires
            self.wf(),
            self.free.len() > 0 || self.alive.len() <= u32::MAX,
        ensures
            self.spawned().0.wf(),
            self.spawned().0.live(self.spawned().1),
    {
        let old_view = self;
        let v = self.spawned().0;
        let index = self.spawned().1.index;
        if old_view.free.len() > 0 {
            let last = old_view.free.len() - 1;
            assert forall|j: u32| #[trigger] v.free.contains(j) implies old_view.free.contains(j) by {
                let k = choose|k: int| 0 <= k < v.free.len() && v.free[k] == j;
                assert(old_view.free[k] == j);
            }
            assert forall|i: int| 0 <= i < v.alive.len() && !v.alive[i] implies v.free.contains(i as u32)
                || v.generations[i] == u32::MAX by {
                if old_view.free.contains(i as u32) {
                    let k = choose|k: int| 0 <= k < old_view.free.len() && old_view.free[k] == i as u32;
                    assert(k != last);
                    assert(v.free[k] == i as u32);
                }
            }
            assert forall|e: Entity| #[trigger] v.despawned_handles.contains(e) implies {
                &&& (e.index as int) < v.alive.len()
                &&& (e.generation < v.generations[e.index as int] || (e.generation
                    == v.generations[e.index as int] && v.retired(e.index as int)))
            } by {
                assert(old_view.despawned_handles.contains(e));
                if e.index == index {
                    assert(old_view.free[last] == index);
                    assert(old_view.free.contains(index));
                }
            }
            assert forall|e: Entity| #[trigger] v.despawned_handles.contains(e) implies !v.live(e) by {
                assert(old_view.despawned_handles.contains(e));
                if e.index == index {
                    assert(old_view.free[last] == index);
                    assert(old_view.free.contains(index));
                }
            }
        } else {
            assert forall|i: int, kind: ComponentKind| 0 <= i < v.alive.len() && !v.alive[i] implies !v.columns.has(kind, i) by {
                assert(i < old_view.alive.len());
                assert(!old_view.alive[i]);
                assert(!old_view.columns.has(kind, i));
                assert(v.columns == old_view.columns.push_empty());
                assert(v.columns.tags[i] == old_view.columns.tags[i]);
                assert(v.columns.positions[i] == old_view.columns.positions[i]);
                assert(v.columns.velocities[i] == old_view.columns.velocities[i]);
                assert(v.columns.aabbs[i] == old_view.columns.aabbs[i]);
                assert(v.columns.animators[i] == old_view.columns.animators[i]);
            }
            assert forall|i: int| 0 <= i < v.alive.len() && !v.alive[i] implies v.free.contains(i as u32)
                || v.generations[i] == u32::MAX by {
                assert(i < old_view.alive.len());
            }
            assert forall|e: Entity| #[trigger] v.despawned_handles.contains(e) implies {
                &&& (e.index as int) < v.alive.len()
                &&& (e.generation < v.generations[e.index as int] || (e.generation
                    == v.generations[e.index as int] && v.retired(e.index as int)))
            } by {
                assert(old_view.despawned_handles.contains(e));
            }
            assert forall|e: Entity| #[trigger] v.despawned_handles.contains(e) implies !v.live(e) by {
                assert(old_view.despawned_handles.contains(e));
            }
        }
    }

    /// Setting a component slot of a live entity keeps the world well formed.
    pub proof fn lemma_with_component_wf<T: Component<S>>(self, e: Entity, c: Option<T>)
        requires
            self.wf(),
            self.live(e),
        ensures
            self.with_component(e, c).wf(),
    {
        let cols = self.columns;
        let col = T::column_of(cols).update(e.index as int, c);
        let nc = T::with_column(cols, col);
        assert(cols.all_len(cols.tags.len()));
        T::lemma_column(cols, col);
        assert(T::column_of(cols).len() == cols.tags.len());
        assert(cols.tags.len() == self.alive.len());
        T::lemma_column(nc, col);
        let w = self.with_component(e, c);
        assert forall|i: int, kind: ComponentKind| 0 <= i < w.alive.len() && !w.alive[i] implies !w.columns.has(kind, i) by {
            assert(!self.alive[i]);
            assert(!cols.has(kind, i));
            if kind != T::spec_kind() {
                assert(nc.has(kind, i) == cols.has(kind, i));
            } else {
                assert(i != e.index);
                assert(col[i] == T::column_of(cols)[i]);
                assert(!cols.has(kind, i));
                assert(T::column_of(nc) == col);
                assert(nc.has(kind, i) == (col[i] is Some));
            }
        }
    }

    /// Setting a component slot of a live entity to any value keeps the
    /// world well formed.
    pub proof fn lemma_with_any_component_wf<T: Component<S>>(self, e: Entity)
        requires
            self.wf(),
            self.live(e),
        ensures
            forall|c: T| #[trigger] self.with_component(e, Some(c)).wf(),
    {
        assert forall|c: T| #[trigger] self.with_component(e, Some(c)).wf() by {
            self.lemma_with_component_wf(e, Some(c));
        }
    }

    /// The world with `e`'s slot of `T`'s column set to `c`.
    pub open spec fn with_component<T: Component<S>>(self, e: Entity, c: Option<T>) -> Self {
        WorldView {
            columns: T::with_column(self.columns, T::column_of(self.columns).update(e.index as int, c)),
            ..self
        }
    }
}

/// Owns all entity and component storage, the tag registry, the event
/// queue, and an optional user resource of type `R`.
pub struct World<S, R> {
    generations: Vec<u32>,
    alive: Vec<bool>,
    free: Vec<u32>,
    columns: Columns<S>,
    tag_registry: TagRegistry,
    events: EventQueue,
    resource: Option<R>,
    despawned_handles: Ghost<Set<Entity>>,
}

impl<S, R> View for World<S, R> {
    type V = WorldView<S, R>;

    closed spec fn view(&self) -> WorldView<S, R> {
        WorldView {
            generations: self.generations@,
            alive: self.alive@,
            free: self.free@,
            columns: self.columns@,
            tag_registry: self.tag_registry,
            events: self.events@,
            resource: self.resource,
            despawned_handles: self.despawned_handles@,
        }
    }
}

/// Chained spawning: the entity is live from `World::spawn` on; `with`
/// attaches components and `finish` hands out the handle.
pub struct EntityBuilder<'w, S, R> {
    pub world: &'w mut World<S, R>,
    pub entity: Entity,
}

impl<S, R> World<S, R> {
    /// Well-formedness (see `WorldView::wf`).
    pub open spec fn wf(&self) -> bool {
        self@.wf()
    }

    /// An empty world with an empty tag registry and event queue and no
    /// user resource.
    pub fn new() -> (r: Self)
        ensures
            r.wf(),
            r@.generations == Seq::<u32>::empty(),
            r@.alive == Seq::<bool>::empty(),
            r@.free == Seq::<u32>::empty(),
            r@.tag_registry@ == Seq::<Seq<char>>::empty(),
            r@.events.domain.len() == 0,
            r@.events.marker.len() == 0,
            r@.resource is None,
            r@.despawned_handles == Set::<Entity>::empty(),
    {
        World {
            generations: Vec::new(),
            alive: Vec::new(),
            free: Vec::new(),
            columns: Columns::new(),
            tag_registry: TagRegistry::new(),
            events: EventQueue::new(),
            resource: None,
            despawned_handles: Ghost(Set::empty()),
        }
    }

    /// Allocates a new entity and returns a builder for attaching
    /// components. The most recently freed slot is reused first.
    pub fn spawn(&mut self) -> (b: EntityBuilder<'_, S, R>)
        requires
            old(self).wf(),
            old(self)@.free.len() > 0 || old(self)@.alive.len() <= u32::MAX,
        ensures
            (*b.world)@ == old(self)@.spawned().0,
            b.entity == old(self)@.spawned().1,
            b.world.wf(),
            (*b.world)@.live(b.entity),
            *final(self) == *final(b.world),
    {
        let ghost old_view = self@;
        let index = match self.free.pop() {
            Some(index) => index,
            None => {
                let index = self.generations.len() as u32;
                self.generations.push(0);
                self.alive.push(false);
                self.columns.push_empty();
                index
            },
        };
        let slot = index as usize;
        self.alive.set(slot, true);
        let entity = Entity { index, generation: self.generations[slot] };
        proof {
            let v = self@;
            let w = old_view.spawned().0;
            if old_view.free.len() > 0 {
                let last = old_view.free.len() - 1;
                assert(v.free =~= w.free);
                assert(v.alive =~= w.alive);
                assert forall|j: u32| #[trigger] v.free.contains(j) implies old_view.free.contains(j) by {
                    let k = choose|k: int| 0 <= k < v.free.len() && v.free[k] == j;
                    assert(old_view.free[k] == j);
                }
                assert forall|i: int| 0 <= i < v.alive.len() && !v.alive[i] implies v.free.contains(i as u32)
                    || v.generations[i] == u32::MAX by {
                    if old_view.free.contains(i as u32) {
                        let k = choose|k: int| 0 <= k < old_view.free.len() && old_view.free[k] == i as u32;
                        assert(k != last);
                        assert(v.free[k] == i as u32);
                    }
                }
                assert forall|e: Entity| #[trigger] v.despawned_handles.contains(e) implies {
                    &&& (e.index as int) < v.alive.len()
                    &&& (e.generation < v.generations[e.index as int] || (e.generation
                        == v.generations[e.index as int] && v.retired(e.index as int)))
                } by {
                    assert(old_view.despawned_handles.contains(e));
                    if e.index == index {
                        assert(old_view.free[last] == index);
                        assert(old_view.free.contains(index));
                    }
                }
                assert forall|e: Entity| #[trigger] v.despawned_handles.contains(e) implies !v.live(e) by {
                    assert(old_view.despawned_handles.contains(e));
                    if e.index == index {
                        assert(old_view.free[last] == index);
                        assert(old_view.free.contains(index));
                    }
                }
            } else {
                assert(v.alive =~= w.alive);
                assert(v.generations =~= w.generations);
                assert forall|i: int, kind: ComponentKind| 0 <= i < v.alive.len() && !v.alive[i] implies !v.columns.has(kind, i) by {
                    assert(i < old_view.alive.len());
                    assert(!old_view.alive[i]);
                    assert(!old_view.columns.has(kind, i));
                    assert(v.columns == old_view.columns.push_empty());
                    assert(v.columns.tags[i] == old_view.columns.tags[i]);
                    assert(v.columns.positions[i] == old_view.columns.positions[i]);
                    assert(v.columns.velocities[i] == old_view.columns.velocities[i]);
                    assert(v.columns.aabbs[i] == old_view.columns.aabbs[i]);
                    assert(v.columns.animators[i] == old_view.columns.animators[i]);
                }
                assert forall|i: int| 0 <= i < v.alive.len() && !v.alive[i] implies v.free.contains(i as u32)
                    || v.generations[i] == u32::MAX by {
                    assert(i < old_view.alive.len());
                }
                assert forall|e: Entity| #[trigger] v.despawned_handles.contains(e) implies {
                    &&& (e.index as int) < v.alive.len()
                    &&& (e.generation < v.generations[e.index as int] || (e.generation
                        == v.generations[e.index as int] && v.retired(e.index as int)))
                } by {
                    assert(old_view.despawned_handles.contains(e));
                }
                assert forall|e: Entity| #[trigger] v.despawned_handles.contains(e) implies !v.live(e) by {
                    assert(old_view.despawned_handles.contains(e));
                }
            }
            assert(v == w);
        }
        EntityBuilder { world: self, entity }
    }

    /// Despawns a live entity: its slot dies, its generation advances
    /// (saturating), and its components are dropped. The slot joins the
    /// free list, unless its generation was already exhausted: then it is
    /// retired, so the handle can never name a later entity.
    pub fn despawn(&mut self, entity: Entity) -> (r: Result<(), CoreError>)
        requires
            old(self).wf(),
        ensures
            final(self).wf(),
            old(self)@.live(entity) ==> r is Ok && final(self)@ == old(self)@.despawned(entity),
            !old(self)@.live(entity) ==> r == Err::<(), CoreError>(CoreError::EntityNotFound(entity))
                && final(self)@ == old(self)@,
    {
        if !self.is_alive(entity) {
            return Err(CoreError::EntityNotFound(entity));
        }
        let ghost old_view = self@;
        let index = entity.index as usize;
        let old_generation = self.generations[index];
        self.alive.set(index, false);
        let g = old_generation.saturating_add(1);
        self.generations.set(index, g);
        if old_generation < u32::MAX {
            self.free.push(entity.index);
        }
        self.columns.clear(index);
        proof {
            self.despawned_handles@ = self.despawned_handles@.insert(entity);
        }
        proof {
            let v = self@;
            let w = old_view.despawned(entity);
            assert(v.alive =~= w.alive);
            assert(v.generations =~= w.generations);
            assert(v.free =~= w.free);
            assert(v == w);
            assert(!old_view.free.contains(entity.index)) by {
                if old_view.free.contains(entity.index) {
                    let k = choose|k: int| 0 <= k < old_view.free.len() && old_view.free[k] == entity.index;
                    assert(!old_view.alive[old_view.free[k] as int]);
                }
            }
            assert forall|i: int, kind: ComponentKind| 0 <= i < v.alive.len() && !v.alive[i] implies !v.columns.has(kind, i) by {
                if i != index {
                    assert(!old_view.alive[i]);
                    assert(!old_view.columns.has(kind, i));
                }
            }
            assert forall|k: int| 0 <= k < v.free.len() implies (v.free[k] as int) < v.alive.len() && !v.alive[v.free[k] as int] by {
                if k < old_view.free.len() {
                    assert(v.free[k] == old_view.free[k]);
                }
            }
            assert forall|k: int, l: int| 0 <= k < l < v.free.len() implies v.free[k] != v.free[l] by {
                if l == old_view.free.len() {
                    assert(!old_view.alive[v.free[k] as int]);
                }
            }
            assert forall|j: int| #![trigger v.free.contains(j as u32)] 0 <= j < v.alive.len() && j != index implies
                v.free.contains(j as u32) == old_view.free.contains(j as u32) by {
                if old_view.free.contains(j as u32) {
                    let k = choose|k: int| 0 <= k < old_view.free.len() && old_view.free[k] == j as u32;
                    assert(v.free[k] == j as u32);
                }
                if v.free.contains(j as u32) {
                    let k = choose|k: int| 0 <= k < v.free.len() && v.free[k] == j as u32;
                    if k < old_view.free.len() {
                        assert(old_view.free[k] == j as u32);
                    } else {
                        assert(v.free[k] == entity.index);
                    }
                }
            }
            assert forall|i: int| 0 <= i < v.alive.len() && !v.alive[i] implies v.free.contains(i as u32)
                || v.generations[i] == u32::MAX by {
                if i == index {
                    if old_generation < u32::MAX {
                        assert(v.free[v.free.len() - 1] == i as u32);
                    }
                } else {
                    assert(!old_view.alive[i]);
                }
            }
            assert forall|e: Entity| #[trigger] v.despawned_handles.contains(e) implies {
                &&& (e.index as int) < v.alive.len()
                &&& (e.generation < v.generations[e.index as int] || (e.generation == v.generations[e.index as int]
                    && v.retired(e.index as int)))
            } by {
                if e != entity {
                    assert(old_view.despawned_handles.contains(e));
                    if e.index == entity.index {
                        assert(old_view.alive[index as int]);
                    } else if e.generation == old_view.generations[e.index as int] {
                        assert(old_view.retired(e.index as int));
                        assert(!v.free.contains(e.index));
                    }
                }
            }
            assert forall|e: Entity| #[trigger] v.despawned_handles.contains(e) implies !v.live(e) by {
                if e != entity {
                    assert(old_view.despawned_handles.contains(e));
                }
            }
        }
        Ok(())
    }

    /// Whether slot `i` of the column for `kind` holds a component.
    pub fn has_column_entry(&self, i: usize, kind: ComponentKind) -> (r: bool)
        requires
            self.wf(),
            i < self@.alive.len(),
        ensures
            r == self@.columns.has(kind, i as int),
    {
        self.columns.has(kind, i)
    }

    /// Number of entity slots allocated so far, live or dead.
    pub fn slot_count(&self) -> (r: usize)
        requires
            self.wf(),
        ensures
            r == self@.alive.len(),
    {
        self.alive.len()
    }

    /// Whether `entity` names the entity currently in its slot.
    pub fn is_alive(&self, entity: Entity) -> (r: bool)
        requires
            self.wf(),
        ensures
            r == self@.live(entity),
    {
        let index = entity.index as usize;
        index < self.alive.len() && self.alive[index] && self.generations[index] == entity.generation
    }

    /// All live entities, in slot order.
    pub fn entities(&self) -> (r: Vec<Entity>)
        requires
            self.wf(),
        ensures
            r@ == self@.live_entities(),
    {
        let mut out: Vec<Entity> = Vec::new();
        let mut i: usize = 0;
        while i < self.alive.len()
            invariant
                self.wf(),
                i <= self.alive@.len(),
                out@ == live_prefix(self@.generations, self@.alive, i as nat),
            decreases self.alive@.len() - i,
        {
            if self.alive[i] {
                out.push(Entity { index: i as u32, generation: self.generations[i] });
            }
            i = i + 1;
        }
        out
    }

    /// The component of type `T` on `entity`, if it is live and has one.
    pub fn get<T: Component<S>>(&self, entity: Entity) -> (r: Option<&T>)
        requires
            self.wf(),
        ensures
            match self@.component::<T>(entity) {
                Some(c) => r matches Some(x) && *x == c,
                None => r is None,
            },
    {
        if !self.is_alive(entity) {
            return None;
        }
        proof {
            T::lemma_column(self@.columns, T::column_of(self@.columns));
        }
        T::column(&self.columns).get(entity.index as usize)
    }

    /// Mutable access to the component of type `T` on `entity`.
    pub fn get_mut<T: Component<S>>(&mut self, entity: Entity) -> (r: Option<&mut T>)
        requires
            old(self).wf(),
        ensures
            r is Some <==> old(self)@.component::<T>(entity) is Some,
            r matches Some(x) ==> *x == old(self)@.component::<T>(entity)->0 && final(self)@
                == old(self)@.with_component(entity, Some(*final(x))),
            r is None ==> final(self)@ == old(self)@,
            final(self).wf(),
    {
        if !self.is_alive(entity) {
            return None;
        }
        proof {
            T::lemma_column(self@.columns, T::column_of(self@.columns));
        }
        let ghost old_view = self@;
        proof {
            old_view.lemma_with_any_component_wf::<T>(entity);
        }
        let col = T::column_mut(&mut self.columns);
        let r = col.get_mut(entity.index as usize);
        proof {
            T::lemma_column(old_view.columns, T::column_of(old_view.columns));
        }
        r
    }

    /// Whether `entity` is live and has a component of type `T`.
    pub fn contains<T: Component<S>>(&self, entity: Entity) -> (r: bool)
        requires
            self.wf(),
        ensures
            r == self@.component::<T>(entity) is Some,
    {
        self.get::<T>(entity).is_some()
    }

    /// Attaches (or replaces) a component on a live entity.
    pub fn insert<T: Component<S>>(&mut self, entity: Entity, component: T) -> (r: Result<(), CoreError>)
        requires
            old(self).wf(),
        ensures
            final(self).wf(),
            old(self)@.live(entity) ==> r is Ok && final(self)@ == old(self)@.with_component(entity, Some(component)),
            !old(self)@.live(entity) ==> r == Err::<(), CoreError>(CoreError::EntityNotFound(entity))
                && final(self)@ == old(self)@,
    {
        if !self.is_alive(entity) {
            return Err(CoreError::EntityNotFound(entity));
        }
        self.insert_component(entity, component);
        Ok(())
    }

    fn insert_component<T: Component<S>>(&mut self, entity: Entity, component: T)
        requires
            old(self).wf(),
            old(self)@.live(entity),
        ensures
            final(self).wf(),
            final(self)@ == old(self)@.with_component(entity, Some(component)),
    {
        let ghost old_view = self@;
        proof {
            T::lemma_column(old_view.columns, T::column_of(old_view.columns));
        }
        let col = T::column_mut(&mut self.columns);
        col.replace(entity.index as usize, Some(component));
        proof {
            old_view.lemma_with_component_wf(entity, Some(component));
        }
    }

    /// Detaches and returns the component of type `T`.
    pub fn remove<T: Component<S>>(&mut self, entity: Entity) -> (r: Result<T, CoreError>)
        requires
            old(self).wf(),
        ensures
            final(self).wf(),
            !old(self)@.live(entity) ==> r == Err::<T, CoreError>(CoreError::EntityNotFound(entity))
                && final(self)@ == old(self)@,
            old(self)@.live(entity) ==> match old(self)@.component::<T>(entity) {
                Some(c) => r == Ok::<T, CoreError>(c) && final(self)@ == old(self)@.with_component(entity, None::<T>),
                None => r matches Err(CoreError::ComponentMissing { entity: e, component: n }) && e == entity
                    && n@ == T::spec_name() && final(self)@ == old(self)@,
            },
    {
        if !self.is_alive(entity) {
            return Err(CoreError::EntityNotFound(entity));
        }
        let ghost old_view = self@;
        proof {
            T::lemma_column(old_view.columns, T::column_of(old_view.columns));
        }
        let col = T::column_mut(&mut self.columns);
        let taken = col.replace(entity.index as usize, None);
        proof {
            old_view.lemma_with_component_wf(entity, None::<T>);
        }
        match taken {
            Some(c) => Ok(c),
            None => {
                proof {
                    assert(T::column_of(old_view.columns).update(entity.index as int, None)
                        =~= T::column_of(old_view.columns));
                }
                Err(CoreError::ComponentMissing { entity, component: T::name() })
            },
        }
    }

    /// Inserts (or replaces) the user resource.
    pub fn insert_resource(&mut self, resource: R)
        ensures
            final(self)@ == (WorldView { resource: Some(resource), ..old(self)@ }),
    {
        self.resource = Some(resource);
    }

    /// The user resource, if inserted.
    pub fn resource(&self) -> (r: Option<&R>)
        ensures
            match self@.resource {
                Some(x) => r matches Some(y) && *y == x,
                None => r is None,
            },
    {
        match &self.resource {
            Some(x) => Some(x),
            None => None,
        }
    }

    /// Mutable access to the user resource.
    pub fn resource_mut(&mut self) -> (r: Option<&mut R>)
        ensures
            r is Some <==> old(self)@.resource is Some,
            r matches Some(x) ==> *x == old(self)@.resource->0 && final(self)@ == (WorldView {
                resource: Some(*final(x)),
                ..old(self)@
            }),
            r is None ==> final(self)@ == old(self)@,
    {
        match &mut self.resource {
            Some(x) => Some(x),
            None => None,
        }
    }

    /// Takes the user resource out of the world.
    pub fn remove_resource(&mut self) -> (r: Option<R>)
        ensures
            r == old(self)@.resource,
            final(self)@ == (WorldView { resource: None, ..old(self)@ }),
    {
        self.resource.take()
    }

    /// Whether the user resource is present.
    pub fn contains_resource(&self) -> (r: bool)
        ensures
            r == self@.resource is Some,
    {
        self.resource.is_some()
    }

    /// The world's tag registry.
    pub fn tag_registry(&self) -> (r: &TagRegistry)
        ensures
            *r == self@.tag_registry,
    {
        &self.tag_registry
    }

    /// Mutable access to the world's tag registry.
    pub fn tag_registry_mut(&mut self) -> (r: &mut TagRegistry)
        ensures
            *r == old(self)@.tag_registry,
            final(self)@ == (WorldView { tag_registry: *final(r), ..old(self)@ }),
    {
        &mut self.tag_registry
    }

    /// The world's event queue.
    pub fn event_queue(&self) -> (r: &EventQueue)
        ensures
            r@ == self@.events,
    {
        &self.events
    }

    /// Mutable access to the world's event queue.
    pub fn event_queue_mut(&mut self) -> (r: &mut EventQueue)
        ensures
            r@ == old(self)@.events,
            final(self)@ == (WorldView { events: final(r)@, ..old(self)@ }),
    {
        &mut self.events
    }
}

impl<'w, S, R> EntityBuilder<'w, S, R> {
    /// Attaches (or replaces) a component on the entity being built.
    pub fn with<T: Component<S>>(self, component: T) -> (r: Self)
        requires
            old(self.world).wf(),
            old(self.world)@.live(self.entity),
        ensures
            r.entity == self.entity,
            (*r.world)@ == old(self.world)@.with_component(self.entity, Some(component)),
            r.world.wf(),
            (*r.world)@.live(r.entity),
            *final(r.world) == *final(self.world),
    {
        let EntityBuilder { world, entity } = self;
        world.insert_component(entity, component);
        EntityBuilder { world, entity }
    }

    /// The handle of the built entity.
    pub fn finish(self) -> (r: Entity)
        ensures
            r == self.entity,
            *final(self.world) == *old(self.world),
    {
        self.entity
    }
}

} // verus!
