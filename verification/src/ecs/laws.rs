use vstd::prelude::*;

use crate::ecs::component::{lemma_other_column, Component};
use crate::ecs::entity::Entity;
use crate::ecs::component::ComponentKind;
use crate::ecs::query::{filter_fetchable, matches_kinds, QueryFetch};
use crate::ecs::world::{live_prefix, next_generation, WorldView};

verus! {

/// Law: a component attached to a live entity is read back unchanged.
pub proof fn law_component_read_after_write<S, R, T: Component<S>>(w: WorldView<S, R>, e: Entity, c: T)
    requires
        w.wf(),
        w.live(e),
    ensures
        w.with_component(e, Some(c)).component::<T>(e) == Some(c),
        w.with_component(e, Some(c)).wf(),
{
    let col = T::column_of(w.columns).update(e.index as int, Some(c));
    T::lemma_column(w.columns, col);
    T::lemma_column(w.columns, T::column_of(w.columns));
    w.lemma_with_component_wf(e, Some(c));
}

/// Law: writing a component of one entity leaves every other entity's
/// component of that type as it was.
pub proof fn law_component_write_is_local<S, R, T: Component<S>>(w: WorldView<S, R>, e: Entity, other: Entity, c: Option<T>)
    requires
        w.wf(),
        w.live(e),
        other.index != e.index,
    ensures
        w.with_component(e, c).component::<T>(other) == w.component::<T>(other),
{
    let col = T::column_of(w.columns).update(e.index as int, c);
    T::lemma_column(w.columns, col);
}

/// Law: a despawned slot is the next one handed out, under a new
/// generation, so the stale handle is dead while the new one is live.
/// (A slot whose generation counter is already exhausted is retired
/// instead of reused: see `law_despawn_records_handle`.)
pub proof fn law_despawn_then_spawn_reuses_slot<S, R>(w: WorldView<S, R>, e: Entity)
    requires
        w.wf(),
        w.live(e),
        e.generation < u32::MAX,
    ensures
        ({
            let (w2, e2) = w.despawned(e).spawned();
            &&& e2.index == e.index
            &&& e2.generation == next_generation(e.generation)
            &&& e2.generation != e.generation
            &&& !w2.live(e)
            &&& w2.live(e2)
        }),
{
}

/// Law: despawning kills the handle and clears all its components.
pub proof fn law_despawn_kills_handle<S, R, T: Component<S>>(w: WorldView<S, R>, e: Entity)
    requires
        w.wf(),
        w.live(e),
    ensures
        !w.despawned(e).live(e),
        w.despawned(e).component::<T>(e) is None,
{
}

/// Law: a stale handle never comes back. Once despawned, a handle names
/// no live entity and reads no component, whatever the world has done
/// since: every world operation keeps the despawned handles and its
/// well-formedness.
pub proof fn law_despawned_handle_stays_dead<S, R, T: Component<S>>(w: WorldView<S, R>, e: Entity)
    requires
        w.wf(),
        w.despawned_handles.contains(e),
    ensures
        !w.live(e),
        w.component::<T>(e) is None,
{
}

/// Law: despawning records the handle among the despawned handles, so by
/// `law_despawned_handle_stays_dead` it stays dead from then on. A slot
/// whose generation counter is exhausted is retired: it leaves the free
/// list for good and the next spawn (within the index space) does not
/// reuse it.
pub proof fn law_despawn_records_handle<S, R>(w: WorldView<S, R>, e: Entity)
    requires
        w.wf(),
        w.live(e),
    ensures
        w.despawned(e).despawned_handles.contains(e),
        e.generation == u32::MAX ==> w.despawned(e).retired(e.index as int),
        e.generation == u32::MAX && (w.free.len() > 0 || w.alive.len() <= u32::MAX) ==> w.despawned(
            e,
        ).spawned().1.index != e.index,
{
    let w2 = w.despawned(e);
    if e.generation == u32::MAX {
        assert(!w.free.contains(e.index)) by {
            if w.free.contains(e.index) {
                let k = choose|k: int| 0 <= k < w.free.len() && w.free[k] == e.index;
                assert(!w.alive[w.free[k] as int]);
            }
        }
        assert(w2.free == w.free);
        if w2.free.len() > 0 {
            let k = w.free.len() - 1;
            assert(w.free[k] == w2.free.last());
            assert(w.free.contains(w.free[k]));
            assert(w2.free.last() != e.index);
        } else if w.alive.len() <= u32::MAX {
            assert(w2.alive.len() == w.alive.len());
            assert((w2.alive.len() as u32) as int == w.alive.len());
        }
    }
}

/// Law: writing a component of one type leaves the components of every
/// other type, on every entity, as they were.
pub proof fn law_component_write_keeps_other_types<S, R, T: Component<S>, U: Component<S>>(
    w: WorldView<S, R>,
    e: Entity,
    c: Option<T>,
    x: Entity,
)
    requires
        T::spec_kind() != U::spec_kind(),
    ensures
        w.with_component(e, c).component::<U>(x) == w.component::<U>(x),
        w.with_component(e, c).live(x) == w.live(x),
{
    lemma_other_column::<S, T, U>(w.columns, T::column_of(w.columns).update(e.index as int, c));
}

/// Law: despawning one entity leaves every entity in another slot as it
/// was: its liveness and all its components.
pub proof fn law_despawn_is_local<S, R, T: Component<S>>(w: WorldView<S, R>, e: Entity, x: Entity)
    requires
        w.wf(),
        w.live(e),
        x.index != e.index,
    ensures
        w.despawned(e).live(x) == w.live(x),
        w.despawned(e).component::<T>(x) == w.component::<T>(x),
{
    T::lemma_column(w.columns, T::column_of(w.columns));
}

/// The live entities of slot prefixes that agree on the first `n` slots
/// agree.
proof fn lemma_live_prefix_agree(g1: Seq<u32>, a1: Seq<bool>, g2: Seq<u32>, a2: Seq<bool>, n: nat)
    requires
        n <= g1.len(),
        n <= g2.len(),
        n <= a1.len(),
        n <= a2.len(),
        forall|j: int| 0 <= j < n ==> g1[j] == g2[j] && a1[j] == a2[j],
    ensures
        live_prefix(g1, a1, n) == live_prefix(g2, a2, n),
    decreases n,
{
    if n > 0 {
        lemma_live_prefix_agree(g1, a1, g2, a2, (n - 1) as nat);
    }
}

/// Bringing one dead slot to life adds one live entity.
proof fn lemma_live_prefix_wake(g: Seq<u32>, a: Seq<bool>, i: int, n: nat)
    requires
        n <= g.len(),
        n <= a.len(),
        0 <= i < a.len(),
        !a[i],
    ensures
        live_prefix(g, a.update(i, true), n).len() == live_prefix(g, a, n).len() + (if i < n {
            1int
        } else {
            0int
        }),
    decreases n,
{
    if n > 0 {
        lemma_live_prefix_wake(g, a, i, (n - 1) as nat);
    }
}

/// The live entities of a prefix are exactly its live handles, in
/// strictly increasing slot order.
proof fn lemma_live_prefix_members<S, R>(w: WorldView<S, R>, n: nat)
    requires
        w.wf(),
        n <= w.alive.len(),
    ensures
        forall|x: Entity| live_prefix(w.generations, w.alive, n).contains(x) <==> (w.live(x) && x.index < n),
        forall|k: int, l: int|
            0 <= k < l < live_prefix(w.generations, w.alive, n).len() ==> (#[trigger] live_prefix(
                w.generations,
                w.alive,
                n,
            )[k]).index < (#[trigger] live_prefix(w.generations, w.alive, n)[l]).index,
    decreases n,
{
    if n > 0 {
        let m = (n - 1) as nat;
        lemma_live_prefix_members(w, m);
        crate::ecs::query::lemma_live_entities_live(w, m);
        let rest = live_prefix(w.generations, w.alive, m);
        let all = live_prefix(w.generations, w.alive, n);
        assert forall|x: Entity| all.contains(x) <==> (w.live(x) && x.index < n) by {
            if all.contains(x) {
                let k = choose|k: int| 0 <= k < all.len() && all[k] == x;
                if k < rest.len() {
                    assert(rest[k] == x);
                    assert(rest.contains(x));
                }
            }
            if w.live(x) && x.index < n {
                if x.index < m {
                    assert(rest.contains(x));
                    let k = choose|k: int| 0 <= k < rest.len() && rest[k] == x;
                    assert(all[k] == x);
                } else {
                    assert(all[all.len() - 1] == x);
                }
            }
        }
    }
}

/// Law: the live entities are exactly the live handles, each once, in
/// strictly increasing slot order, each with its slot's current
/// generation.
pub proof fn law_entities_are_the_live_handles<S, R>(w: WorldView<S, R>)
    requires
        w.wf(),
    ensures
        forall|x: Entity| w.live_entities().contains(x) <==> w.live(x),
        forall|k: int, l: int|
            0 <= k < l < w.live_entities().len() ==> (#[trigger] w.live_entities()[k]).index
                < (#[trigger] w.live_entities()[l]).index,
{
    lemma_live_prefix_members(w, w.alive.len());
}

/// Law: spawning hands out a handle that was not live, is live now, and
/// holds no component; every entity live before stays live, and there is
/// one more live entity. The slot is the most recently freed one if any,
/// else a new one at the end.
pub proof fn law_spawn_adds_one_entity<S, R, T: Component<S>>(w: WorldView<S, R>)
    requires
        w.wf(),
        w.free.len() > 0 || w.alive.len() <= u32::MAX,
    ensures
        ({
            let (w2, e) = w.spawned();
            &&& w2.live(e)
            &&& !w.live(e)
            &&& forall|x: Entity| w.live(x) ==> w2.live(x)
            &&& w2.component::<T>(e) is None
            &&& w2.live_entities().len() == w.live_entities().len() + 1
            &&& e.index == (if w.free.len() > 0 {
                w.free.last() as int
            } else {
                w.alive.len() as int
            })
        }),
{
    let (w2, e) = w.spawned();
    T::lemma_column(w.columns, T::column_of(w.columns));
    if w.free.len() > 0 {
        let i = w.free.last() as int;
        assert(!w.alive[i]);
        assert(!w.columns.has(T::spec_kind(), i));
        lemma_live_prefix_wake(w.generations, w.alive, i, w.alive.len());
    } else {
        let n = w.alive.len();
        lemma_live_prefix_agree(w.generations, w.alive, w2.generations, w2.alive, n);
        assert(w2.columns == w.columns.push_empty());
    }
}

/// Filtering keeps exactly the entities that pass, and keeps strictly
/// increasing slot order.
proof fn lemma_filter_fetchable_members<'w, S: 'w, R: 'w, Q: QueryFetch<'w, S, R>>(
    w: WorldView<S, R>,
    required: Seq<ComponentKind>,
    forbidden: Seq<ComponentKind>,
    ents: Seq<Entity>,
)
    requires
        forall|k: int, l: int| 0 <= k < l < ents.len() ==> (#[trigger] ents[k]).index < (#[trigger] ents[l]).index,
    ensures
        forall|x: Entity| #[trigger] filter_fetchable::<S, R, Q>(w, required, forbidden, ents).contains(x) <==> (
        ents.contains(x) && matches_kinds(w, x, required, forbidden) && Q::fetchable(w, x)),
        forall|k: int, l: int|
            0 <= k < l < filter_fetchable::<S, R, Q>(w, required, forbidden, ents).len() ==> (
            #[trigger] filter_fetchable::<S, R, Q>(w, required, forbidden, ents)[k]).index < (
            #[trigger] filter_fetchable::<S, R, Q>(w, required, forbidden, ents)[l]).index,
    decreases ents.len(),
{
    if ents.len() > 0 {
        let init = ents.drop_last();
        let last = ents.last();
        assert forall|k: int, l: int| 0 <= k < l < init.len() implies (#[trigger] init[k]).index < (
        #[trigger] init[l]).index by {
            assert(init[k] == ents[k] && init[l] == ents[l]);
        }
        lemma_filter_fetchable_members::<S, R, Q>(w, required, forbidden, init);
        let rest = filter_fetchable::<S, R, Q>(w, required, forbidden, init);
        let all = filter_fetchable::<S, R, Q>(w, required, forbidden, ents);
        assert forall|x: Entity| ents.contains(x) <==> (init.contains(x) || x == last) by {
            if ents.contains(x) {
                let k = choose|k: int| 0 <= k < ents.len() && ents[k] == x;
                if k < init.len() {
                    assert(init[k] == x);
                }
            }
            if init.contains(x) {
                let k = choose|k: int| 0 <= k < init.len() && init[k] == x;
                assert(ents[k] == x);
            }
            if x == last {
                assert(ents[ents.len() - 1] == x);
            }
        }
        assert forall|x: Entity| init.contains(x) implies x.index < last.index by {
            let k = choose|k: int| 0 <= k < init.len() && init[k] == x;
            assert(ents[k] == x);
            assert(ents[ents.len() - 1] == last);
        }
        assert forall|x: Entity| all.contains(x) <==> (ents.contains(x) && matches_kinds(w, x, required, forbidden)
            && Q::fetchable(w, x)) by {
            if matches_kinds(w, last, required, forbidden) && Q::fetchable(w, last) {
                assert(all == rest.push(last));
                if all.contains(x) {
                    let k = choose|k: int| 0 <= k < all.len() && all[k] == x;
                    if k < rest.len() {
                        assert(rest[k] == x);
                    }
                }
                if rest.contains(x) {
                    let k = choose|k: int| 0 <= k < rest.len() && rest[k] == x;
                    assert(all[k] == x);
                }
                if x == last {
                    assert(all[all.len() - 1] == x);
                }
                if init.contains(x) && x == last {
                    assert(x.index < last.index);
                }
            } else {
                assert(all == rest);
                if init.contains(x) && x == last {
                    assert(x.index < last.index);
                }
            }
        }
        if matches_kinds(w, last, required, forbidden) && Q::fetchable(w, last) {
            assert forall|k: int, l: int| 0 <= k < l < all.len() implies (#[trigger] all[k]).index < (
            #[trigger] all[l]).index by {
                if l == all.len() - 1 {
                    assert(rest[k] == all[k]);
                    assert(rest.contains(all[k]));
                    assert(init.contains(all[k]));
                } else {
                    assert(rest[k] == all[k] && rest[l] == all[l]);
                }
            }
        }
    }
}

/// Law: a read-only query yields exactly the live entities that pass its
/// filters and have everything it fetches, each once, in strictly
/// increasing slot order (the order of `World::entities`).
pub proof fn law_query_rows<'w, S: 'w, R: 'w, Q: QueryFetch<'w, S, R>>(
    w: WorldView<S, R>,
    required: Seq<ComponentKind>,
    forbidden: Seq<ComponentKind>,
)
    requires
        w.wf(),
    ensures
        forall|x: Entity| #[trigger] filter_fetchable::<S, R, Q>(w, required, forbidden, w.live_entities()).contains(x)
            <==> (w.live(x) && matches_kinds(w, x, required, forbidden) && Q::fetchable(w, x)),
        forall|k: int, l: int|
            0 <= k < l < filter_fetchable::<S, R, Q>(w, required, forbidden, w.live_entities()).len() ==> (
            #[trigger] filter_fetchable::<S, R, Q>(w, required, forbidden, w.live_entities())[k]).index < (
            #[trigger] filter_fetchable::<S, R, Q>(w, required, forbidden, w.live_entities())[l]).index,
{
    law_entities_are_the_live_handles(w);
    lemma_filter_fetchable_members::<S, R, Q>(w, required, forbidden, w.live_entities());
}

} // verus!
