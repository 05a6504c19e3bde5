use vstd::prelude::*;

use crate::ecs::entity::Entity;
use crate::ecs::world::WorldView;
use crate::event::payload::EventModel;
use crate::json::Json;
use crate::math::Scalar;
use crate::component::spatial::Velocity;
use crate::runtime::binding::substitute;
use crate::math::Vec2;
use crate::runtime::binding::tags_match;
use crate::runtime::rules::model::{Action, MatchSpec, ParamId, ReverseAxis, Rule, RuleSet};
use crate::tag::set::TagSet;
use crate::runtime::rules::system::{
    dequeued, drain, drain_all, drain_terminates, drains_within, failure_model, lemma_drain_fuel_enough, param_names,
    bind_prefix, param_not_bound_reason, payload_normal, queued, reversed, run_action_spec, run_actions_from,
    run_rules,
    velocity_missing_reason,
};

verus! {

/// `a` is a prefix of `b`.
pub open spec fn prefix_of<A>(a: Seq<A>, b: Seq<A>) -> bool {
    a.len() <= b.len() && forall|i: int| 0 <= i < a.len() ==> a[i] == b[i]
}

/// `b` differs from `a` at most in its velocities (keeping the velocity
/// column's length) and its pending domain events: entities (and the
/// despawned handles), tags, other
/// components, the tag registry, the user resource and pending marker
/// events are the same.
pub open spec fn same_but_velocities_and_domain<S, R>(a: WorldView<S, R>, b: WorldView<S, R>) -> bool {
    &&& b.generations == a.generations
    &&& b.alive == a.alive
    &&& b.free == a.free
    &&& b.despawned_handles == a.despawned_handles
    &&& b.tag_registry == a.tag_registry
    &&& b.resource == a.resource
    &&& b.columns.tags == a.columns.tags
    &&& b.columns.positions == a.columns.positions
    &&& b.columns.aabbs == a.columns.aabbs
    &&& b.columns.animators == a.columns.animators
    &&& b.columns.velocities.len() == a.columns.velocities.len()
    &&& b.events.marker == a.events.marker
}

/// A successful action touches only velocities and only appends domain
/// events.
proof fn lemma_action_frame<S: Scalar, R>(
    w: WorldView<S, R>,
    action: crate::runtime::rules::model::Action<S>,
    names: Seq<Seq<char>>,
    entities: Seq<Entity>,
    payload: Seq<(Seq<char>, Json)>,
)
    requires
        w.wf(),
        run_action_spec(w, action, names, entities, payload) is Ok,
    ensures
        run_action_spec(w, action, names, entities, payload)->Ok_0.wf(),
        same_but_velocities_and_domain(w, run_action_spec(w, action, names, entities, payload)->Ok_0),
        prefix_of(w.events.domain, run_action_spec(w, action, names, entities, payload)->Ok_0.events.domain),
{
    let w2 = run_action_spec(w, action, names, entities, payload)->Ok_0;
    match action {
        crate::runtime::rules::model::Action::SetVelocity { target, velocity } => {
            let e = entities[target.0 as int];
            w.lemma_with_component_wf(e, Some(crate::component::spatial::Velocity(velocity)));
            assert(w2 == w.with_component(e, Some(crate::component::spatial::Velocity(velocity))));
            assert(w2.columns.velocities == w.columns.velocities.update(
                e.index as int,
                Some(crate::component::spatial::Velocity(velocity)),
            ));
        },
        crate::runtime::rules::model::Action::ReverseVelocity { target, axis } => {
            let e = entities[target.0 as int];
            let v = w.component::<crate::component::spatial::Velocity<S>>(e)->0;
            let nv = crate::runtime::rules::system::reversed(v.0, axis, payload)->0;
            w.lemma_with_component_wf(e, Some(crate::component::spatial::Velocity(nv)));
            assert(w2 == w.with_component(e, Some(crate::component::spatial::Velocity(nv))));
            assert(w2.columns.velocities == w.columns.velocities.update(
                e.index as int,
                Some(crate::component::spatial::Velocity(nv)),
            ));
        },
        _ => {},
    }
}

/// Running a rule's actions touches only velocities and only appends
/// domain events.
proof fn lemma_actions_frame<S: Scalar, R>(
    w: WorldView<S, R>,
    rule: Rule<S>,
    entities: Seq<Entity>,
    payload: Seq<(Seq<char>, Json)>,
    k: nat,
)
    requires
        w.wf(),
    ensures
        run_actions_from(w, rule, entities, payload, k).wf(),
        same_but_velocities_and_domain(w, run_actions_from(w, rule, entities, payload, k)),
        prefix_of(w.events.domain, run_actions_from(w, rule, entities, payload, k).events.domain),
    decreases rule.actions@.len() - k,
{
    if k < rule.actions@.len() {
        let a = rule.actions@[k as int];
        match run_action_spec(w, a, param_names(rule.match_spec), entities, payload) {
            Ok(w2) => {
                lemma_action_frame(w, a, param_names(rule.match_spec), entities, payload);
                lemma_actions_frame(w2, rule, entities, payload, k + 1);
            },
            Err(reason) => {
                let f = failure_model(rule.id.0@, k, reason);
                assert(queued(w, f).events.domain == w.events.domain.push(f));
            },
        }
    }
}

/// Running the rules for one event touches only velocities and only
/// appends domain events.
proof fn lemma_rules_frame<S: Scalar, R>(w: WorldView<S, R>, rules: Seq<Rule<S>>, payload: Seq<(Seq<char>, Json)>, k: nat)
    requires
        w.wf(),
    ensures
        run_rules(w, rules, payload, k).wf(),
        same_but_velocities_and_domain(w, run_rules(w, rules, payload, k)),
        prefix_of(w.events.domain, run_rules(w, rules, payload, k).events.domain),
    decreases rules.len() - k,
{
    if k < rules.len() {
        match crate::runtime::rules::system::bind_rule(w, rules[k as int], payload) {
            None => {
                lemma_rules_frame(w, rules, payload, k + 1);
            },
            Some(es) => {
                let w2 = run_actions_from(w, rules[k as int], es, payload, 0);
                lemma_actions_frame(w, rules[k as int], es, payload, 0);
                lemma_rules_frame(w2, rules, payload, k + 1);
            },
        }
    }
}

/// Draining with any budget changes nothing but velocities and the domain
/// queue.
proof fn lemma_drain_frame<S: Scalar, R>(rules: RuleSet<S>, w: WorldView<S, R>, fuel: nat)
    requires
        w.wf(),
    ensures
        same_but_velocities_and_domain(w, drain(rules, w, fuel).0),
    decreases fuel,
{
    if fuel > 0 && w.events.domain.len() > 0 {
        let e = w.events.domain[0];
        let w1 = dequeued(w);
        let w2 = run_rules(w1, rules.rules_for_spec(e.name), e.payload, 0);
        lemma_rules_frame(w1, rules.rules_for_spec(e.name), e.payload, 0);
        lemma_drain_frame(rules, w2, (fuel - 1) as nat);
    }
}

/// Draining with any budget forwards the events pending before it first,
/// in order, followed by those left queued.
proof fn lemma_drain_fifo<S: Scalar, R>(rules: RuleSet<S>, w: WorldView<S, R>, fuel: nat)
    requires
        w.wf(),
    ensures
        prefix_of(w.events.domain, drain(rules, w, fuel).1 + drain(rules, w, fuel).0.events.domain),
    decreases fuel,
{
    if fuel > 0 && w.events.domain.len() > 0 {
        let e = w.events.domain[0];
        let w1 = dequeued(w);
        let w2 = run_rules(w1, rules.rules_for_spec(e.name), e.payload, 0);
        lemma_rules_frame(w1, rules.rules_for_spec(e.name), e.payload, 0);
        lemma_drain_fifo(rules, w2, (fuel - 1) as nat);
        let (w3, out) = drain(rules, w2, (fuel - 1) as nat);
        assert(drain(rules, w, fuel).1 == seq![e] + out);
        assert forall|i: int| 0 <= i < w.events.domain.len() implies w.events.domain[i] == (seq![e] + out
            + w3.events.domain)[i] by {
            if i > 0 {
                assert(w.events.domain[i] == w1.events.domain[i - 1]);
                assert(w1.events.domain[i - 1] == w2.events.domain[i - 1]);
                assert(w2.events.domain[i - 1] == (out + w3.events.domain)[i - 1]);
            }
        }
        assert((seq![e] + out) + w3.events.domain =~= seq![e] + (out + w3.events.domain));
    } else {
        assert(drain(rules, w, fuel).1 + w.events.domain =~= w.events.domain);
    }
}

/// With no rule subscribed, a budget of `fuel` forwards the oldest
/// `min(fuel, pending)` events unchanged and leaves the rest queued.
proof fn lemma_drain_without_rules<S: Scalar, R>(rules: RuleSet<S>, w: WorldView<S, R>, fuel: nat)
    requires
        forall|n: Seq<char>| rules.rules_for_spec(n) == Seq::<Rule<S>>::empty(),
    ensures
        ({
            let n = if fuel < w.events.domain.len() {
                fuel as int
            } else {
                w.events.domain.len() as int
            };
            &&& drain(rules, w, fuel).1 == w.events.domain.take(n)
            &&& drain(rules, w, fuel).0 == (WorldView {
                events: crate::event::queue::QueueView {
                    domain: w.events.domain.skip(n),
                    marker: w.events.marker,
                },
                ..w
            })
        }),
    decreases fuel,
{
    if fuel > 0 && w.events.domain.len() > 0 {
        let e = w.events.domain[0];
        let w1 = dequeued(w);
        assert(rules.rules_for_spec(e.name) == Seq::<Rule<S>>::empty());
        assert(run_rules(w1, rules.rules_for_spec(e.name), e.payload, 0) == w1);
        lemma_drain_without_rules(rules, w1, (fuel - 1) as nat);
        let n1 = if (fuel - 1) < w1.events.domain.len() {
            (fuel - 1) as int
        } else {
            w1.events.domain.len() as int
        };
        assert(seq![e] + w1.events.domain.take(n1) =~= w.events.domain.take(n1 + 1));
        assert(w1.events.domain.skip(n1) =~= w.events.domain.skip(n1 + 1));
    } else {
        assert(w.events.domain.take(0) =~= Seq::<EventModel>::empty());
        assert(w.events.domain.skip(0) =~= w.events.domain);
    }
}

/// Law: draining the event queue (what `RuleProcessor::process` does to
/// the world) changes nothing but velocities and the domain queue:
/// entities, tags, other components, the registry, the resource and
/// marker events stay as they were.
pub proof fn law_drain_touches_only_velocities<S: Scalar, R>(rules: RuleSet<S>, w: WorldView<S, R>)
    requires
        w.wf(),
        drain_terminates(rules, w),
    ensures
        same_but_velocities_and_domain(w, drain_all(rules, w).0),
{
    lemma_drain_frame(rules, w, choose|fuel: nat| drains_within(rules, w, fuel));
}

/// Law: domain events are forwarded in FIFO order. The events pending
/// before the drain are forwarded first, in order, before any event that
/// rule actions queued.
pub proof fn law_drain_is_fifo<S: Scalar, R>(rules: RuleSet<S>, w: WorldView<S, R>)
    requires
        w.wf(),
        drain_terminates(rules, w),
    ensures
        prefix_of(w.events.domain, drain_all(rules, w).1),
{
    let fuel = choose|fuel: nat| drains_within(rules, w, fuel);
    lemma_drain_fifo(rules, w, fuel);
    assert(drain(rules, w, fuel).1 + drain(rules, w, fuel).0.events.domain =~= drain(rules, w, fuel).1);
}

/// Law: with no rule subscribed to any event, the drain comes to an end,
/// forwards exactly the pending events, unchanged and in order, and leaves
/// the world as it was but for the emptied domain queue.
pub proof fn law_drain_without_rules<S: Scalar, R>(rules: RuleSet<S>, w: WorldView<S, R>)
    requires
        forall|n: Seq<char>| rules.rules_for_spec(n) == Seq::<Rule<S>>::empty(),
    ensures
        drain_terminates(rules, w),
        drain_all(rules, w).1 == w.events.domain,
        drain_all(rules, w).0 == (WorldView {
            events: crate::event::queue::QueueView { domain: Seq::empty(), marker: w.events.marker },
            ..w
        }),
{
    let len = w.events.domain.len();
    lemma_drain_without_rules(rules, w, len);
    assert(w.events.domain.take(len as int) =~= w.events.domain);
    assert(w.events.domain.skip(len as int) =~= Seq::<EventModel>::empty());
    assert(drains_within(rules, w, len));
    let fuel = choose|fuel: nat| drains_within(rules, w, fuel);
    if fuel <= len {
        lemma_drain_fuel_enough(rules, w, fuel, len);
    } else {
        lemma_drain_fuel_enough(rules, w, len, fuel);
    }
}

/// Law: when an action fails. Spawning, despawning and animation actions
/// are not implemented and always fail; a velocity action fails when its
/// target parameter is unbound or the bound entity has no velocity; a
/// reversal from the collision normal fails when the event carries no
/// readable `normal`; an emit fails when its payload does not substitute
/// to an object. A failed action has no effect on the world: it yields no
/// new world, and the rule records only the failure event (see
/// `law_failed_action_aborts_rule`).
pub proof fn law_action_failures<S: Scalar, R>(
    w: WorldView<S, R>,
    action: Action<S>,
    names: Seq<Seq<char>>,
    entities: Seq<Entity>,
    payload: Seq<(Seq<char>, Json)>,
)
    ensures
        ({
            let r = run_action_spec(w, action, names, entities, payload);
            &&& (action is Spawn || action is Despawn || action is PlayAnimation) ==> r == Err::<
                WorldView<S, R>,
                Seq<char>,
            >("action not implemented"@)
            &&& (action matches Action::SetVelocity { target, .. } && (target.0 as int) >= entities.len()) ==> r
                == Err::<WorldView<S, R>, Seq<char>>(param_not_bound_reason(action->SetVelocity_target.0))
            &&& (action matches Action::ReverseVelocity { target, .. } && (target.0 as int) >= entities.len()) ==> r
                == Err::<WorldView<S, R>, Seq<char>>(param_not_bound_reason(action->ReverseVelocity_target.0))
            &&& (action matches Action::SetVelocity { target, .. } && (target.0 as int) < entities.len() && w.component::<
                Velocity<S>,
            >(entities[target.0 as int]) is None) ==> r == Err::<WorldView<S, R>, Seq<char>>(
                velocity_missing_reason(entities[action->SetVelocity_target.0 as int]),
            )
            &&& (action matches Action::ReverseVelocity { target, .. } && (target.0 as int) < entities.len()
                && w.component::<Velocity<S>>(entities[target.0 as int]) is None) ==> r == Err::<
                WorldView<S, R>,
                Seq<char>,
            >(velocity_missing_reason(entities[action->ReverseVelocity_target.0 as int]))
            &&& (action matches Action::ReverseVelocity { target, axis } && axis == ReverseAxis::FromNormal && (
            target.0 as int) < entities.len() && w.component::<Velocity<S>>(entities[target.0 as int]) is Some
                && payload_normal(payload) is None) ==> r == Err::<WorldView<S, R>, Seq<char>>(
                "normal missing or malformed"@,
            )
            &&& (action matches Action::Emit { payload: template, .. } && !(substitute(
                template@,
                names,
                entities,
                "unknown emit binding "@,
            ) matches Ok(Json::Object(_)))) ==> r is Err
        }),
{
}

/// Law: reversing a velocity. For a bound target carrying velocity
/// `(x, y)`, reversing along `X` gives `(-x, y)`, along `Y` gives
/// `(x, -y)`, along both gives `(-x, -y)`; reversing from the collision
/// normal `(nx, ny)` negates each component whose normal component is
/// nonzero and keeps the others. The reversed velocity is what the
/// target carries afterwards.
pub proof fn law_reverse_velocity<S: Scalar, R>(
    w: WorldView<S, R>,
    target: ParamId,
    axis: ReverseAxis,
    names: Seq<Seq<char>>,
    entities: Seq<Entity>,
    payload: Seq<(Seq<char>, Json)>,
)
    requires
        w.wf(),
        (target.0 as int) < entities.len(),
        w.component::<Velocity<S>>(entities[target.0 as int]) is Some,
    ensures
        ({
            let e = entities[target.0 as int];
            let v = (w.component::<Velocity<S>>(e)->0).0;
            let r = run_action_spec(w, Action::ReverseVelocity { target, axis }, names, entities, payload);
            &&& axis == ReverseAxis::X ==> r is Ok && r->Ok_0.component::<Velocity<S>>(e) == Some(
                Velocity(Vec2 { x: v.x.spec_neg(), y: v.y }),
            )
            &&& axis == ReverseAxis::Y ==> r is Ok && r->Ok_0.component::<Velocity<S>>(e) == Some(
                Velocity(Vec2 { x: v.x, y: v.y.spec_neg() }),
            )
            &&& axis == ReverseAxis::Both ==> r is Ok && r->Ok_0.component::<Velocity<S>>(e) == Some(
                Velocity(Vec2 { x: v.x.spec_neg(), y: v.y.spec_neg() }),
            )
            &&& axis == ReverseAxis::FromNormal ==> (payload_normal(payload) matches Some((nx, ny)) ==> r is Ok
                && r->Ok_0.component::<Velocity<S>>(e) == Some(
                Velocity(
                    Vec2 {
                        x: if S::spec_number_is_zero(nx) {
                            v.x
                        } else {
                            v.x.spec_neg()
                        },
                        y: if S::spec_number_is_zero(ny) {
                            v.y
                        } else {
                            v.y.spec_neg()
                        },
                    },
                ),
            ))
        }),
{
    let e = entities[target.0 as int];
    let v = (w.component::<Velocity<S>>(e)->0).0;
    if let Some(nv) = reversed(v, axis, payload) {
        crate::ecs::laws::law_component_read_after_write::<S, R, Velocity<S>>(w, e, Velocity(nv));
    }
}

/// Law: setting a velocity. For a bound target that has a velocity,
/// `set_velocity` succeeds and the target carries exactly the action's
/// velocity afterwards; nothing else in the world changes but that one
/// component.
pub proof fn law_set_velocity<S: Scalar, R>(
    w: WorldView<S, R>,
    target: ParamId,
    velocity: Vec2<S>,
    names: Seq<Seq<char>>,
    entities: Seq<Entity>,
    payload: Seq<(Seq<char>, Json)>,
)
    requires
        w.wf(),
        (target.0 as int) < entities.len(),
        w.component::<Velocity<S>>(entities[target.0 as int]) is Some,
    ensures
        ({
            let e = entities[target.0 as int];
            let r = run_action_spec(w, Action::SetVelocity { target, velocity }, names, entities, payload);
            &&& r is Ok
            &&& r->Ok_0.component::<Velocity<S>>(e) == Some(Velocity(velocity))
            &&& forall|x: Entity| x.index != e.index ==> r->Ok_0.component::<Velocity<S>>(x) == w.component::<
                Velocity<S>,
            >(x)
            &&& r->Ok_0.events == w.events
            &&& r->Ok_0.alive == w.alive && r->Ok_0.generations == w.generations
        }),
{
    let e = entities[target.0 as int];
    crate::ecs::laws::law_component_read_after_write::<S, R, Velocity<S>>(w, e, Velocity(velocity));
    assert forall|x: Entity| x.index != e.index implies run_action_spec(
        w,
        Action::SetVelocity { target, velocity },
        names,
        entities,
        payload,
    )->Ok_0.component::<Velocity<S>>(x) == w.component::<Velocity<S>>(x) by {
        crate::ecs::laws::law_component_write_is_local::<S, R, Velocity<S>>(w, e, x, Some(Velocity(velocity)));
    }
}

/// Law: emitting. When an emit's payload substitutes to an object, the
/// action succeeds and queues one domain event, named as the action says
/// and carrying the substituted members, behind those already pending;
/// entities and components are untouched.
pub proof fn law_emit<S: Scalar, R>(
    w: WorldView<S, R>,
    event: String,
    template: crate::json::JsonValue,
    names: Seq<Seq<char>>,
    entities: Seq<Entity>,
    payload: Seq<(Seq<char>, Json)>,
)
    ensures
        substitute(template@, names, entities, "unknown emit binding "@) matches Ok(Json::Object(fields)) ==> {
            let r = run_action_spec(w, Action::Emit { event, payload: template }, names, entities, payload);
            &&& r is Ok
            &&& r->Ok_0.events.domain == w.events.domain.push(EventModel { name: event@, payload: fields })
            &&& r->Ok_0.events.marker == w.events.marker
            &&& r->Ok_0.columns == w.columns
            &&& r->Ok_0.alive == w.alive && r->Ok_0.generations == w.generations
        },
{
}

/// Law: the entities a rule binds pass their filters. When a rule's
/// parameters bind, each bound entity is live, and one that carries a tag
/// set holds every tag its filter requires and none it forbids, while one
/// without a tag set is bound only where nothing is required. An entity
/// with a forbidden tag is never bound, so the rule is skipped.
pub proof fn law_bound_entities_pass_filters<S, R>(w: WorldView<S, R>, spec: MatchSpec, payload: Seq<(Seq<char>, Json)>, n: nat)
    ensures
        bind_prefix(w, spec, payload, n) matches Some(es) ==> {
            &&& es.len() == n
            &&& forall|k: int| 0 <= k < es.len() ==> w.live(#[trigger] es[k])
            &&& forall|k: int| 0 <= k < es.len() && k < spec.filters@.len() ==> {
                let tags = w.component::<TagSet>(#[trigger] es[k]);
                let f = spec.filters@[k];
                &&& f.required@.len() > 0 ==> tags is Some
                &&& tags is Some ==> forall|j: int| 0 <= j < f.required@.len() ==> tags->0@.contains(
                    #[trigger] f.required@[j].0 as int,
                )
                &&& tags is Some ==> forall|j: int| 0 <= j < f.forbidden@.len() ==> !tags->0@.contains(
                    #[trigger] f.forbidden@[j].0 as int,
                )
            }
        },
    decreases n,
{
    if n > 0 {
        let m = (n - 1) as nat;
        law_bound_entities_pass_filters(w, spec, payload, m);
        if let Some(es) = bind_prefix(w, spec, payload, n) {
            let prev = bind_prefix(w, spec, payload, m)->Some_0;
            assert(es == prev.push(es[m as int]));
            assert forall|k: int| 0 <= k < es.len() implies w.live(#[trigger] es[k]) by {
                if k < m {
                    assert(es[k] == prev[k]);
                }
            }
            assert forall|k: int| 0 <= k < es.len() && k < spec.filters@.len() implies {
                let tags = w.component::<TagSet>(#[trigger] es[k]);
                let f = spec.filters@[k];
                &&& f.required@.len() > 0 ==> tags is Some
                &&& tags is Some ==> forall|j: int| 0 <= j < f.required@.len() ==> tags->0@.contains(
                    #[trigger] f.required@[j].0 as int,
                )
                &&& tags is Some ==> forall|j: int| 0 <= j < f.forbidden@.len() ==> !tags->0@.contains(
                    #[trigger] f.forbidden@[j].0 as int,
                )
            } by {
                if k < m {
                    assert(es[k] == prev[k]);
                } else {
                    let f = spec.filters@[k];
                    assert(tags_match(w, es[k], f));
                    if f.required@.len() > 0 {
                        assert(w.component::<TagSet>(es[k]) is Some);
                    }
                }
            }
        }
    }
}

/// Law: a failing action aborts the rest of its rule. When action `k`
/// fails, none of the later actions runs: the world is left as the earlier
/// actions made it, with one `rule_action_failed` event queued that names
/// the rule, the action's index and the reason.
pub proof fn law_failed_action_aborts_rule<S: Scalar, R>(
    w: WorldView<S, R>,
    rule: Rule<S>,
    entities: Seq<Entity>,
    payload: Seq<(Seq<char>, Json)>,
    k: nat,
)
    requires
        k < rule.actions@.len(),
        run_action_spec(w, rule.actions@[k as int], param_names(rule.match_spec), entities, payload) is Err,
    ensures
        ({
            let reason = run_action_spec(w, rule.actions@[k as int], param_names(rule.match_spec), entities, payload)->Err_0;
            run_actions_from(w, rule, entities, payload, k) == queued(w, failure_model(rule.id.0@, k, reason))
        }),
{
}

} // verus!
