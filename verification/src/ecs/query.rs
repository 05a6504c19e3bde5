use vstd::prelude::*;

use crate::ecs::component::{Component, ComponentKind};
use crate::ecs::entity::Entity;
use crate::ecs::world::{World, WorldView};

verus! {

/// `e` is live, has a component in every `required` column and none in
/// any `forbidden` column.
pub open spec fn matches_kinds<S, R>(
    w: WorldView<S, R>,
    e: Entity,
    required: Seq<ComponentKind>,
    forbidden: Seq<ComponentKind>,
) -> bool {
    &&& w.live(e)
    &&& forall|k: int| 0 <= k < required.len() ==> w.has_kind(e, required[k])
    &&& forall|k: int| 0 <= k < forbidden.len() ==> !w.has_kind(e, forbidden[k])
}

/// The entities of `ents` that match the filters, in order.
pub open spec fn filter_matching<S, R>(
    w: WorldView<S, R>,
    required: Seq<ComponentKind>,
    forbidden: Seq<ComponentKind>,
    ents: Seq<Entity>,
) -> Seq<Entity>
    decreases ents.len(),
{
    if ents.len() == 0 {
        Seq::empty()
    } else {
        let rest = filter_matching(w, required, forbidden, ents.drop_last());
        if matches_kinds(w, ents.last(), required, forbidden) {
            rest.push(ents.last())
        } else {
            rest
        }
    }
}

/// The live entities matching the filters, in slot order.
pub open spec fn matching<S, R>(w: WorldView<S, R>, required: Seq<ComponentKind>, forbidden: Seq<ComponentKind>) -> Seq<Entity> {
    filter_matching(w, required, forbidden, w.live_entities())
}

/// What a read-only query fetches per entity: a component reference or a
/// tuple of them.
pub trait QueryFetch<'w, S: 'w, R: 'w>: Sized {
    type Item;

    /// Whether every part of the fetch is present on `e`.
    spec fn fetchable(w: WorldView<S, R>, e: Entity) -> bool;

    /// `item` is what the fetch yields for `e`.
    spec fn fetched(w: WorldView<S, R>, e: Entity, item: Self::Item) -> bool;

    /// Fetches the item for `e`, if every part is present.
    fn fetch(w: &'w World<S, R>, e: Entity) -> (r: Option<Self::Item>)
        requires
            w.wf(),
        ensures
            r is Some <==> Self::fetchable(w@, e),
            r matches Some(item) ==> Self::fetched(w@, e, item),
    ;
}

impl<'w, S: 'w, R: 'w, T: Component<S> + 'w> QueryFetch<'w, S, R> for &'w T {
    type Item = &'w T;

    open spec fn fetchable(w: WorldView<S, R>, e: Entity) -> bool {
        w.component::<T>(e) is Some
    }

    open spec fn fetched(w: WorldView<S, R>, e: Entity, item: &'w T) -> bool {
        w.component::<T>(e) == Some(*item)
    }

    fn fetch(w: &'w World<S, R>, e: Entity) -> (r: Option<&'w T>) {
        w.get::<T>(e)
    }
}

impl<'w, S: 'w, R: 'w, A: QueryFetch<'w, S, R>, B: QueryFetch<'w, S, R>> QueryFetch<'w, S, R> for (A, B) {
    type Item = (A::Item, B::Item);

    open spec fn fetchable(w: WorldView<S, R>, e: Entity) -> bool {
        A::fetchable(w, e) && B::fetchable(w, e)
    }

    open spec fn fetched(w: WorldView<S, R>, e: Entity, item: (A::Item, B::Item)) -> bool {
        A::fetched(w, e, item.0) && B::fetched(w, e, item.1)
    }

    fn fetch(w: &'w World<S, R>, e: Entity) -> (r: Option<(A::Item, B::Item)>) {
        match A::fetch(w, e) {
            Some(a) => match B::fetch(w, e) {
                Some(b) => Some((a, b)),
                None => None,
            },
            None => None,
        }
    }
}

impl<'w, S: 'w, R: 'w, A: QueryFetch<'w, S, R>, B: QueryFetch<'w, S, R>, C: QueryFetch<'w, S, R>> QueryFetch<
    'w,
    S,
    R,
> for (A, B, C) {
    type Item = (A::Item, B::Item, C::Item);

    open spec fn fetchable(w: WorldView<S, R>, e: Entity) -> bool {
        A::fetchable(w, e) && B::fetchable(w, e) && C::fetchable(w, e)
    }

    open spec fn fetched(w: WorldView<S, R>, e: Entity, item: (A::Item, B::Item, C::Item)) -> bool {
        A::fetched(w, e, item.0) && B::fetched(w, e, item.1) && C::fetched(w, e, item.2)
    }

    fn fetch(w: &'w World<S, R>, e: Entity) -> (r: Option<(A::Item, B::Item, C::Item)>) {
        match A::fetch(w, e) {
            Some(a) => match B::fetch(w, e) {
                Some(b) => match C::fetch(w, e) {
                    Some(c) => Some((a, b, c)),
                    None => None,
                },
                None => None,
            },
            None => None,
        }
    }
}

/// The entities of `ents` that match the filters and can be fetched, in
/// order.
pub open spec fn filter_fetchable<'w, S: 'w, R: 'w, Q: QueryFetch<'w, S, R>>(
    w: WorldView<S, R>,
    required: Seq<ComponentKind>,
    forbidden: Seq<ComponentKind>,
    ents: Seq<Entity>,
) -> Seq<Entity>
    decreases ents.len(),
{
    if ents.len() == 0 {
        Seq::empty()
    } else {
        let rest = filter_fetchable::<S, R, Q>(w, required, forbidden, ents.drop_last());
        if matches_kinds(w, ents.last(), required, forbidden) && Q::fetchable(w, ents.last()) {
            rest.push(ents.last())
        } else {
            rest
        }
    }
}

/// Type-level marker: the entity must have component `T`, which the query
/// does not borrow.
pub struct With<T>(pub std::marker::PhantomData<T>);

/// Type-level marker: the entity must not have component `T`.
pub struct Without<T>(pub std::marker::PhantomData<T>);

/// Read-only query over a world. Filters chain via `with` / `without`;
/// `into_iter` yields the matching rows in slot order.
pub struct QueryBuilder<'w, S, R, Q> {
    world: &'w World<S, R>,
    required: Vec<ComponentKind>,
    forbidden: Vec<ComponentKind>,
    _q: std::marker::PhantomData<Q>,
}

impl<'w, S: 'w, R: 'w, Q: QueryFetch<'w, S, R>> QueryBuilder<'w, S, R, Q> {
    /// The queried world.
    pub closed spec fn world_view(&self) -> WorldView<S, R> {
        self.world@
    }

    /// Required component kinds, in the order they were added.
    pub closed spec fn required(&self) -> Seq<ComponentKind> {
        self.required@
    }

    /// Forbidden component kinds, in the order they were added.
    pub closed spec fn forbidden(&self) -> Seq<ComponentKind> {
        self.forbidden@
    }

    /// The queried world is well formed.
    pub closed spec fn wf(&self) -> bool {
        self.world.wf()
    }

    /// A query with no filters.
    pub fn new(world: &'w World<S, R>) -> (r: Self)
        requires
            world.wf(),
        ensures
            r.wf(),
            r.world_view() == world@,
            r.required() == Seq::<ComponentKind>::empty(),
            r.forbidden() == Seq::<ComponentKind>::empty(),
    {
        QueryBuilder { world, required: Vec::new(), forbidden: Vec::new(), _q: std::marker::PhantomData }
    }

    /// Also require a component of type `T`.
    pub fn with<T: Component<S>>(self) -> (r: Self)
        ensures
            r.wf() == self.wf(),
            r.world_view() == self.world_view(),
            r.required() == self.required().push(T::spec_kind()),
            r.forbidden() == self.forbidden(),
    {
        self.with_type(T::kind())
    }

    /// Also forbid a component of type `T`.
    pub fn without<T: Component<S>>(self) -> (r: Self)
        ensures
            r.wf() == self.wf(),
            r.world_view() == self.world_view(),
            r.required() == self.required(),
            r.forbidden() == self.forbidden().push(T::spec_kind()),
    {
        self.without_type(T::kind())
    }

    fn with_type(self, kind: ComponentKind) -> (r: Self)
        ensures
            r.wf() == self.wf(),
            r.world_view() == self.world_view(),
            r.required() == self.required().push(kind),
            r.forbidden() == self.forbidden(),
    {
        let QueryBuilder { world, mut required, forbidden, _q } = self;
        required.push(kind);
        QueryBuilder { world, required, forbidden, _q }
    }

    fn without_type(self, kind: ComponentKind) -> (r: Self)
        ensures
            r.wf() == self.wf(),
            r.world_view() == self.world_view(),
            r.required() == self.required(),
            r.forbidden() == self.forbidden().push(kind),
    {
        let QueryBuilder { world, required, mut forbidden, _q } = self;
        forbidden.push(kind);
        QueryBuilder { world, required, forbidden, _q }
    }

    /// Runs the query: one row per live entity, in slot order, that
    /// matches the filters and has everything `Q` fetches.
    pub fn into_iter(self) -> (r: QueryIter<'w, S, R, Q>)
        requires
            self.wf(),
        ensures
            r.entities() == filter_fetchable::<S, R, Q>(
                self.world_view(),
                self.required(),
                self.forbidden(),
                self.world_view().live_entities(),
            ),
            forall|i: int| 0 <= i < r.rows().len() ==> #[trigger] Q::fetched(self.world_view(), r.rows()[i].0, r.rows()[i].1),
    {
        let ents = self.world.matching_entities(&self.required, &self.forbidden);
        let mut rows: std::collections::VecDeque<(Entity, Q::Item)> = std::collections::VecDeque::new();
        let mut i: usize = 0;
        let ghost w = self.world@;
        let ghost all = w.live_entities();
        proof {
            lemma_filter_fetchable_via_matching::<S, R, Q>(w, self.required@, self.forbidden@, all);
        }
        while i < ents.len()
            invariant
                self.world.wf(),
                w == self.world@,
                i <= ents@.len(),
                ents@ == filter_matching(w, self.required@, self.forbidden@, all),
                rows@.map_values(|row: (Entity, Q::Item)| row.0) == keep_fetchable::<S, R, Q>(w, ents@.take(i as int)),
                forall|k: int| 0 <= k < rows@.len() ==> #[trigger] Q::fetched(w, rows@[k].0, rows@[k].1),
            decreases ents@.len() - i,
        {
            let e = ents[i];
            let ghost before = rows@;
            match Q::fetch(self.world, e) {
                Some(item) => {
                    rows.push_back((e, item));
                    assert(rows@.map_values(|row: (Entity, Q::Item)| row.0) =~= before.map_values(
                        |row: (Entity, Q::Item)| row.0,
                    ).push(e));
                },
                None => {},
            }
            assert(ents@.take(i + 1).drop_last() =~= ents@.take(i as int));
            i = i + 1;
        }
        assert(ents@.take(ents@.len() as int) =~= ents@);
        QueryIter { rows }
    }
}

/// The fetchable entities of `ents`, in order.
pub open spec fn keep_fetchable<'w, S: 'w, R: 'w, Q: QueryFetch<'w, S, R>>(w: WorldView<S, R>, ents: Seq<Entity>) -> Seq<Entity>
    decreases ents.len(),
{
    if ents.len() == 0 {
        Seq::empty()
    } else {
        let rest = keep_fetchable::<S, R, Q>(w, ents.drop_last());
        if Q::fetchable(w, ents.last()) {
            rest.push(ents.last())
        } else {
            rest
        }
    }
}

proof fn lemma_filter_fetchable_via_matching<'w, S: 'w, R: 'w, Q: QueryFetch<'w, S, R>>(
    w: WorldView<S, R>,
    required: Seq<ComponentKind>,
    forbidden: Seq<ComponentKind>,
    ents: Seq<Entity>,
)
    ensures
        keep_fetchable::<S, R, Q>(w, filter_matching(w, required, forbidden, ents)) == filter_fetchable::<S, R, Q>(
            w,
            required,
            forbidden,
            ents,
        ),
    decreases ents.len(),
{
    if ents.len() > 0 {
        lemma_filter_fetchable_via_matching::<S, R, Q>(w, required, forbidden, ents.drop_last());
        let m = filter_matching(w, required, forbidden, ents.drop_last());
        if matches_kinds(w, ents.last(), required, forbidden) {
            assert(m.push(ents.last()).drop_last() =~= m);
        }
    }
}

/// The rows of a read-only query, consumed front to back.
pub struct QueryIter<'w, S: 'w, R: 'w, Q: QueryFetch<'w, S, R>> {
    rows: std::collections::VecDeque<(Entity, Q::Item)>,
}

impl<'w, S: 'w, R: 'w, Q: QueryFetch<'w, S, R>> QueryIter<'w, S, R, Q> {
    /// Remaining rows.
    pub closed spec fn rows(&self) -> Seq<(Entity, Q::Item)> {
        self.rows@
    }

    /// Entities of the remaining rows.
    pub open spec fn entities(&self) -> Seq<Entity> {
        self.rows().map_values(|row: (Entity, Q::Item)| row.0)
    }

    /// Yields the next row.
    pub fn next(&mut self) -> (r: Option<(Entity, Q::Item)>)
        ensures
            old(self).rows().len() == 0 ==> r is None && final(self).rows() == old(self).rows(),
            old(self).rows().len() > 0 ==> r == Some(old(self).rows()[0]) && final(self).rows()
                == old(self).rows().drop_first(),
    {
        self.rows.pop_front()
    }

    /// Number of remaining rows.
    pub fn len(&self) -> (r: usize)
        ensures
            r == self.rows().len(),
    {
        self.rows.len()
    }
}

impl<S, R> World<S, R> {
    /// Whether `entity` is live and has a component in the column for `kind`.
    pub fn contains_kind(&self, entity: Entity, kind: ComponentKind) -> (r: bool)
        requires
            self.wf(),
        ensures
            r == self@.has_kind(entity, kind),
    {
        if !self.is_alive(entity) {
            return false;
        }
        self.has_column_entry(entity.index as usize, kind)
    }

    /// Live entities, in slot order, that have every `required` kind and
    /// no `forbidden` kind.
    pub fn matching_entities(&self, required: &Vec<ComponentKind>, forbidden: &Vec<ComponentKind>) -> (r: Vec<Entity>)
        requires
            self.wf(),
        ensures
            r@ == matching(self@, required@, forbidden@),
    {
        let all = self.entities();
        let mut out: Vec<Entity> = Vec::new();
        let mut i: usize = 0;
        proof {
            lemma_live_entities_live(self@, self@.alive.len());
        }
        while i < all.len()
            invariant
                self.wf(),
                i <= all@.len(),
                all@ == self@.live_entities(),
                forall|k: int| 0 <= k < all@.len() ==> self@.live(#[trigger] all@[k]),
                out@ == filter_matching(self@, required@, forbidden@, all@.take(i as int)),
            decreases all@.len() - i,
        {
            let e = all[i];
            let mut ok = true;
            let mut k: usize = 0;
            while k < required.len()
                invariant
                    self.wf(),
                    k <= required@.len(),
                    self@.live(e),
                    ok == forall|j: int| 0 <= j < k ==> self@.has_kind(e, required@[j]),
                decreases required@.len() - k,
            {
                if !self.contains_kind(e, required[k]) {
                    ok = false;
                }
                k = k + 1;
            }
            let mut k: usize = 0;
            while k < forbidden.len()
                invariant
                    self.wf(),
                    k <= forbidden@.len(),
                    self@.live(e),
                    ok == ((forall|j: int| 0 <= j < required@.len() ==> self@.has_kind(e, required@[j]))
                        && forall|j: int| 0 <= j < k ==> !self@.has_kind(e, forbidden@[j])),
                decreases forbidden@.len() - k,
            {
                if self.contains_kind(e, forbidden[k]) {
                    ok = false;
                }
                k = k + 1;
            }
            if ok {
                out.push(e);
            }
            assert(all@.take(i + 1).drop_last() =~= all@.take(i as int));
            i = i + 1;
        }
        assert(all@.take(all@.len() as int) =~= all@);
        out
    }
}

/// Every entity of a prefix of the live list is live.
pub proof fn lemma_live_entities_live<S, R>(w: WorldView<S, R>, n: nat)
    requires
        w.wf(),
        n <= w.alive.len(),
    ensures
        forall|k: int| 0 <= k < crate::ecs::world::live_prefix(w.generations, w.alive, n).len() ==> w.live(
            #[trigger] crate::ecs::world::live_prefix(w.generations, w.alive, n)[k],
        ),
        forall|k: int| 0 <= k < crate::ecs::world::live_prefix(w.generations, w.alive, n).len() ==> (
        #[trigger] crate::ecs::world::live_prefix(w.generations, w.alive, n)[k]).index < n,
    decreases n,
{
    if n > 0 {
        lemma_live_entities_live(w, (n - 1) as nat);
        let rest = crate::ecs::world::live_prefix(w.generations, w.alive, (n - 1) as nat);
        let cur = crate::ecs::world::live_prefix(w.generations, w.alive, n);
        assert forall|k: int| 0 <= k < cur.len() implies w.live(#[trigger] cur[k]) && cur[k].index < n by {
            if k < rest.len() {
                assert(cur[k] == rest[k]);
            }
        }
    }
}

} // verus!

verus! {

/// Mutable query over one component type. Filters chain via `with` /
/// `without`; `into_iter` hands out each matching component in turn.
pub struct QueryMutBuilder<'w, S, R, T> {
    pub world: &'w mut World<S, R>,
    pub required: Vec<ComponentKind>,
    pub forbidden: Vec<ComponentKind>,
    pub component: std::marker::PhantomData<T>,
}

impl<'w, S, R, T: Component<S>> QueryMutBuilder<'w, S, R, T> {
    /// A query with no filters.
    pub fn new(world: &'w mut World<S, R>) -> (r: Self)
        ensures
            *r.world == *old(world),
            *final(world) == *final(r.world),
            r.required@ == Seq::<ComponentKind>::empty(),
            r.forbidden@ == Seq::<ComponentKind>::empty(),
    {
        QueryMutBuilder { world, required: Vec::new(), forbidden: Vec::new(), component: std::marker::PhantomData }
    }

    /// Also require a component of type `U`.
    pub fn with<U: Component<S>>(self) -> (r: Self)
        ensures
            *r.world == *old(self.world),
            *final(r.world) == *final(self.world),
            r.required@ == self.required@.push(U::spec_kind()),
            r.forbidden@ == self.forbidden@,
    {
        self.with_type(U::kind())
    }

    /// Also forbid a component of type `U`.
    pub fn without<U: Component<S>>(self) -> (r: Self)
        ensures
            *r.world == *old(self.world),
            *final(r.world) == *final(self.world),
            r.required@ == self.required@,
            r.forbidden@ == self.forbidden@.push(U::spec_kind()),
    {
        self.without_type(U::kind())
    }

    fn with_type(self, kind: ComponentKind) -> (r: Self)
        ensures
            *r.world == *old(self.world),
            *final(r.world) == *final(self.world),
            r.required@ == self.required@.push(kind),
            r.forbidden@ == self.forbidden@,
    {
        let QueryMutBuilder { world, mut required, forbidden, component } = self;
        required.push(kind);
        QueryMutBuilder { world, required, forbidden, component }
    }

    fn without_type(self, kind: ComponentKind) -> (r: Self)
        ensures
            *r.world == *old(self.world),
            *final(r.world) == *final(self.world),
            r.required@ == self.required@,
            r.forbidden@ == self.forbidden@.push(kind),
    {
        let QueryMutBuilder { world, required, mut forbidden, component } = self;
        forbidden.push(kind);
        QueryMutBuilder { world, required, forbidden, component }
    }

    /// Runs the query: the live entities, in slot order, that match the
    /// filters and have a `T`, to be visited one at a time.
    pub fn into_iter(self) -> (r: QueryMutIter<'w, S, R, T>)
        requires
            old(self.world).wf(),
        ensures
            *r.world == *old(self.world),
            *final(r.world) == *final(self.world),
            r.pending@ == matching(old(self.world)@, self.required@.push(T::spec_kind()), self.forbidden@),
            r.wf(),
    {
        let QueryMutBuilder { world, mut required, forbidden, component } = self;
        required.push(T::kind());
        let pending = world.matching_entities(&required, &forbidden);
        proof {
            lemma_matching_live(world@, required@, forbidden@, world@.live_entities());
            lemma_live_entities_live(world@, world@.alive.len());
            let p = pending@;
            assert forall|k: int| 0 <= k < p.len() implies (*world)@.component::<T>(#[trigger] p[k]) is Some by {
                let last = (required@.len() - 1) as int;
                assert(required@[last] == T::spec_kind());
                assert(world@.has_kind(p[k], required@[last]));
                T::lemma_column(world@.columns, T::column_of(world@.columns));
            }
        }
        let mut q: std::collections::VecDeque<Entity> = std::collections::VecDeque::new();
        let mut i: usize = 0;
        while i < pending.len()
            invariant
                i <= pending@.len(),
                q@ == pending@.take(i as int),
            decreases pending@.len() - i,
        {
            q.push_back(pending[i]);
            assert(pending@.take(i + 1) =~= pending@.take(i as int).push(pending@[i as int]));
            i = i + 1;
        }
        assert(pending@.take(pending@.len() as int) =~= pending@);
        QueryMutIter { world, pending: q, component }
    }
}

/// Every entity a filter keeps is one of the input entities and matches.
pub proof fn lemma_matching_live<S, R>(
    w: WorldView<S, R>,
    required: Seq<ComponentKind>,
    forbidden: Seq<ComponentKind>,
    ents: Seq<Entity>,
)
    ensures
        forall|k: int| 0 <= k < filter_matching(w, required, forbidden, ents).len() ==> matches_kinds(
            w,
            #[trigger] filter_matching(w, required, forbidden, ents)[k],
            required,
            forbidden,
        ),
    decreases ents.len(),
{
    if ents.len() > 0 {
        lemma_matching_live(w, required, forbidden, ents.drop_last());
        let rest = filter_matching(w, required, forbidden, ents.drop_last());
        let cur = filter_matching(w, required, forbidden, ents);
        assert forall|k: int| 0 <= k < cur.len() implies matches_kinds(w, #[trigger] cur[k], required, forbidden) by {
            if k < rest.len() {
                assert(cur[k] == rest[k]);
            }
        }
    }
}

/// The matching components of a mutable query, handed out one at a time.
pub struct QueryMutIter<'w, S, R, T> {
    pub world: &'w mut World<S, R>,
    pub pending: std::collections::VecDeque<Entity>,
    pub component: std::marker::PhantomData<T>,
}

impl<'w, S, R, T: Component<S>> QueryMutIter<'w, S, R, T> {
    /// The world is well formed and every pending entity has a `T`.
    pub open spec fn wf(&self) -> bool {
        &&& self.world.wf()
        &&& forall|k: int| 0 <= k < self.pending@.len() ==> (*self.world)@.component::<T>(#[trigger] self.pending@[k]) is Some
    }

    /// Hands out the next pending entity and mutable access to its `T`.
    pub fn next(&mut self) -> (r: Option<(Entity, &mut T)>)
        requires
            old(self).wf(),
        ensures
            *final(final(self).world) == *final(old(self).world),
            old(self).pending@.len() == 0 ==> r is None && final(self).pending@ == old(self).pending@
                && *final(self).world == *old(self).world,
            old(self).pending@.len() > 0 ==> (r matches Some(row) && {
                let e = old(self).pending@[0];
                &&& row.0 == e
                &&& *row.1 == (*old(self).world)@.component::<T>(e)->0
                &&& final(self).pending@ == old(self).pending@.drop_first()
                &&& (*final(self).world)@ == (*old(self).world)@.with_component(e, Some(*final(row.1)))
            }),
            final(self).wf(),
    {
        match self.pending.pop_front() {
            Some(e) => {
                proof {
                    let w = (*self.world)@;
                    assert(w.component::<T>(e) is Some);
                    assert forall|c: T, k: int| 0 <= k < self.pending@.len() implies #[trigger] w.with_component(e, Some(c)).component::<T>(
                        self.pending@[k],
                    ) is Some by {
                        assert(old(self).pending@[k + 1] == self.pending@[k]);
                        T::lemma_column(w.columns, T::column_of(w.columns).update(e.index as int, Some(c)));
                    }
                }
                match self.world.get_mut::<T>(e) {
                    Some(c) => Some((e, c)),
                    None => None,
                }
            },
            None => None,
        }
    }
}

impl<S, R> World<S, R> {
    /// Read-only query for `Q`.
    pub fn query<'w, Q: QueryFetch<'w, S, R>>(&'w self) -> (r: QueryBuilder<'w, S, R, Q>)
        requires
            self.wf(),
        ensures
            r.wf(),
            r.world_view() == self@,
            r.required() == Seq::<ComponentKind>::empty(),
            r.forbidden() == Seq::<ComponentKind>::empty(),
    {
        QueryBuilder::new(self)
    }

    /// Mutable query for one component type.
    pub fn query_mut<T: Component<S>>(&mut self) -> (r: QueryMutBuilder<'_, S, R, T>)
        ensures
            *r.world == *old(self),
            *final(self) == *final(r.world),
            r.required@ == Seq::<ComponentKind>::empty(),
            r.forbidden@ == Seq::<ComponentKind>::empty(),
    {
        QueryMutBuilder::new(self)
    }
}

} // verus!
