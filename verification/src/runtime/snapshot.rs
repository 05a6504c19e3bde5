use vstd::prelude::*;

use crate::component::animation::Animator;
use crate::component::spatial::{Aabb, Position, Velocity};
use crate::ecs::entity::Entity;
use crate::ecs::world::{World, WorldView};
use crate::runtime::rules::load::string_views;
use crate::tag::registry::TagRegistry;
use crate::tag::set::TagSet;

verus! {

/// The components of one entity, as a snapshot reports them.
#[derive(Debug)]
pub struct ComponentsSnapshot<S> {
    /// Names of the entity's tags in increasing id order, if it has a tag
    /// set.
    pub tags: Option<Vec<String>>,
    pub position: Option<Position<S>>,
    pub velocity: Option<Velocity<S>>,
    pub aabb: Option<Aabb<S>>,
    pub animator: Option<Animator<S>>,
}

/// One record of a world snapshot stream.
#[derive(Debug)]
pub enum SnapshotEvent<S> {
    BeginSnapshot { tick: u64 },
    Entity { entity: Entity, components: ComponentsSnapshot<S> },
    EndSnapshot,
}

/// The names, in increasing id order, of the ids below `k` in `ids` that
/// the registry `names` knows.
pub open spec fn tag_names_below(names: Seq<Seq<char>>, ids: Set<int>, k: nat) -> Seq<Seq<char>>
    decreases k,
{
    if k == 0 {
        Seq::empty()
    } else {
        let i = k - 1;
        let rest = tag_names_below(names, ids, i as nat);
        if ids.contains(i) && i < names.len() {
            rest.push(names[i])
        } else {
            rest
        }
    }
}

/// The names of the tags in `ids`, in increasing id order.
pub open spec fn tag_names(names: Seq<Seq<char>>, ids: Set<int>) -> Seq<Seq<char>> {
    tag_names_below(names, ids, 128)
}

proof fn lemma_tag_names_gap(names: Seq<Seq<char>>, ids: Set<int>, m: nat, k: nat)
    requires
        m <= k,
        forall|j: int| m <= j < k ==> !ids.contains(j),
    ensures
        tag_names_below(names, ids, k) == tag_names_below(names, ids, m),
    decreases k - m,
{
    if m < k {
        lemma_tag_names_gap(names, ids, m, (k - 1) as nat);
    }
}

/// The tag names of a tag set, in increasing id order.
fn tag_name_list(registry: &TagRegistry, tags: &TagSet) -> (r: Vec<String>)
    ensures
        string_views(r@) == tag_names(registry@, tags@),
{
    proof {
        tags.lemma_ids_in_range();
    }
    let ghost ids = tags@;
    let mut iter = tags.iter();
    let mut out: Vec<String> = Vec::new();
    let ghost mut m: nat = 0;
    let mut done = false;
    assert(string_views(out@) =~= Seq::<Seq<char>>::empty());
    while !done
        invariant
            ids == tags@,
            forall|i: int| ids.contains(i) ==> 0 <= i < 128,
            m <= 128,
            forall|j: int| #[trigger] iter@.contains(j) <==> (ids.contains(j) && j >= m),
            string_views(out@) == tag_names_below(registry@, ids, m),
            done ==> forall|j: int| !iter@.contains(j),
        decreases 128 - m + (if done {
            0int
        } else {
            1int
        }),
    {
        let ghost before_iter = iter@;
        match iter.next() {
            None => {
                done = true;
            },
            Some(id) => {
                let ghost k = id.0 as int;
                proof {
                    assert(before_iter.contains(k));
                    assert(ids.contains(k) && k >= m);
                    assert forall|j: int| m <= j < k implies !ids.contains(j) by {
                        if ids.contains(j) {
                            assert(before_iter.contains(j));
                        }
                    }
                    lemma_tag_names_gap(registry@, ids, m, k as nat);
                }
                match registry.name(id) {
                    Some(n) => {
                        let ghost before = out@;
                        out.push(n.to_owned());
                        assert(string_views(out@) =~= string_views(before).push(n@));
                    },
                    None => {},
                }
                proof {
                    m = (k + 1) as nat;
                }
            },
        }
    }
    proof {
        assert forall|j: int| m <= j < 128 implies !ids.contains(j) by {
            assert(!iter@.contains(j));
        }
        lemma_tag_names_gap(registry@, ids, m, 128);
    }
    out
}

/// The snapshot of entity `e`'s components.
pub open spec fn components_of<S, R>(w: WorldView<S, R>, e: Entity, c: ComponentsSnapshot<S>) -> bool {
    &&& (c.tags is Some <==> w.component::<TagSet>(e) is Some)
    &&& (c.tags matches Some(v) ==> string_views(v@) == tag_names(w.tag_registry@, w.component::<TagSet>(
        e,
    )->0@))
    &&& c.position == w.component::<Position<S>>(e)
    &&& c.velocity == w.component::<Velocity<S>>(e)
    &&& c.aabb == w.component::<Aabb<S>>(e)
    &&& c.animator == w.component::<Animator<S>>(e)
}

/// Whether `ev` is the snapshot record of live entity `e` of world `w`.
pub open spec fn is_entity_record<S, R>(w: WorldView<S, R>, e: Entity, ev: SnapshotEvent<S>) -> bool {
    match ev {
        SnapshotEvent::Entity { entity, components } => entity == e && components_of(w, e, components),
        _ => false,
    }
}

/// The components of `entity` as a snapshot reports them.
fn snapshot_components<S: Copy, R>(world: &World<S, R>, entity: Entity) -> (r: ComponentsSnapshot<S>)
    requires
        world.wf(),
    ensures
        components_of(world@, entity, r),
{
    let tags = match world.get::<TagSet>(entity) {
        Some(t) => Some(tag_name_list(world.tag_registry(), t)),
        None => None,
    };
    let position = match world.get::<Position<S>>(entity) {
        Some(p) => Some(*p),
        None => None,
    };
    let velocity = match world.get::<Velocity<S>>(entity) {
        Some(v) => Some(*v),
        None => None,
    };
    let aabb = match world.get::<Aabb<S>>(entity) {
        Some(a) => Some(*a),
        None => None,
    };
    let animator = match world.get::<Animator<S>>(entity) {
        Some(a) => Some(a.clone()),
        None => None,
    };
    ComponentsSnapshot { tags, position, velocity, aabb, animator }
}

/// A snapshot stream of the world at `tick`: a begin record, one record
/// per live entity in slot order, and an end record.
pub fn snapshot_world<S: Copy, R>(world: &World<S, R>, tick: u64) -> (r: Vec<SnapshotEvent<S>>)
    requires
        world.wf(),
    ensures
        r@.len() == world@.live_entities().len() + 2,
        r@[0] == (SnapshotEvent::<S>::BeginSnapshot { tick }),
        r@.last() == (SnapshotEvent::<S>::EndSnapshot),
        forall|i: int|
            0 <= i < world@.live_entities().len() ==> is_entity_record(
                world@,
                world@.live_entities()[i],
                #[trigger] r@[i + 1],
            ),
{
    let mut events: Vec<SnapshotEvent<S>> = Vec::new();
    events.push(SnapshotEvent::BeginSnapshot { tick });
    let entities = world.entities();
    let mut i: usize = 0;
    while i < entities.len()
        invariant
            world.wf(),
            entities@ == world@.live_entities(),
            i <= entities@.len(),
            events@.len() == i + 1,
            events@[0] == (SnapshotEvent::<S>::BeginSnapshot { tick }),
            forall|k: int| 0 <= k < i ==> is_entity_record(world@, entities@[k], #[trigger] events@[k + 1]),
        decreases entities@.len() - i,
    {
        let e = entities[i];
        let c = snapshot_components(world, e);
        events.push(SnapshotEvent::Entity { entity: e, components: c });
        i = i + 1;
    }
    events.push(SnapshotEvent::EndSnapshot);
    events
}

} // verus!
