use vstd::prelude::*;

use crate::ecs::error::CoreError;
use crate::json::{Json, JsonMap, JsonValue};
use crate::math::Vec2;
use crate::runtime::binding::{find_name, lemma_find_name};
use crate::runtime::rules::model::{Action, EntityMatch, MatchSpec, ParamId, ReverseAxis, Rule, RuleId};
use crate::runtime::schema::rule::{ActionSchema, EntityMatchSchema, RuleSchema};
use crate::tag::id::{TagId, MAX_TAGS};
use crate::tag::registry::{index_of_name, intern_step, TagRegistry};
use crate::text::{distinct_keys, keys_of, sort_by_key, str_lt, strictly_sorted, lemma_str_lt_asymmetric};

verus! {

/// Most match parameters a rule or input map may declare: parameter
/// indices are `u8`.
pub const MAX_MATCH_PARAMS: usize = 255;

/// Why a match specification could not be loaded.
#[derive(Debug)]
pub enum MatchSpecError {
    /// More parameters than `MAX_MATCH_PARAMS`; carries the count.
    TooManyParams(usize),
    /// A tag name could not be interned.
    Tags(CoreError),
}

/// Why an action could not be loaded.
#[derive(Debug)]
pub enum ActionError {
    /// The action targets a parameter the rule does not declare.
    UnknownParam(String),
    /// An emit payload that is neither an object nor omitted.
    PayloadNotObject(JsonValue),
}

/// Why a rule could not be loaded.
#[derive(Debug)]
pub enum RuleError {
    /// The rule has no `[[do]]` entry.
    NoActions,
    /// The match specification failed.
    MatchSpec(MatchSpecError),
    /// Action `index` failed.
    Action { index: usize, error: ActionError },
}

// ---------------------------------------------------------------------
// Interning tag names.
// ---------------------------------------------------------------------

/// The views of a sequence of strings.
pub open spec fn string_views(v: Seq<String>) -> Seq<Seq<char>> {
    v.map_values(|s: String| s@)
}

/// Interning `list` in order, stopping at the first failure; names
/// interned before the failure stay interned.
pub open spec fn intern_all(names: Seq<Seq<char>>, list: Seq<Seq<char>>) -> (
    Seq<Seq<char>>,
    Result<Seq<TagId>, CoreError>,
)
    decreases list.len(),
{
    if list.len() == 0 {
        (names, Ok(Seq::empty()))
    } else {
        let (n1, r1) = intern_all(names, list.drop_last());
        match r1 {
            Err(e) => (n1, Err(e)),
            Ok(ids) => {
                let (n2, r2) = intern_step(n1, list.last());
                match r2 {
                    Err(e) => (n2, Err(e)),
                    Ok(id) => (n2, Ok(ids.push(id))),
                }
            },
        }
    }
}

/// Converting one tag filter: its required names, then its forbidden
/// names, are interned.
pub open spec fn filter_outcome(names: Seq<Seq<char>>, schema: EntityMatchSchema) -> (
    Seq<Seq<char>>,
    Result<(Seq<TagId>, Seq<TagId>), CoreError>,
) {
    let (n1, r1) = intern_all(names, string_views(schema.with@));
    match r1 {
        Err(e) => (n1, Err(e)),
        Ok(required) => {
            let (n2, r2) = intern_all(n1, string_views(schema.without@));
            match r2 {
                Err(e) => (n2, Err(e)),
                Ok(forbidden) => (n2, Ok((required, forbidden))),
            }
        },
    }
}

/// Converting the filters of `entries` in order, stopping at the first
/// failure.
pub open spec fn filters_outcome(names: Seq<Seq<char>>, entries: Seq<(String, EntityMatchSchema)>) -> (
    Seq<Seq<char>>,
    Result<Seq<(Seq<TagId>, Seq<TagId>)>, CoreError>,
)
    decreases entries.len(),
{
    if entries.len() == 0 {
        (names, Ok(Seq::empty()))
    } else {
        let (n1, r1) = filters_outcome(names, entries.drop_last());
        match r1 {
            Err(e) => (n1, Err(e)),
            Ok(fs) => {
                let (n2, r2) = filter_outcome(n1, entries.last().1);
                match r2 {
                    Err(e) => (n2, Err(e)),
                    Ok(f) => (n2, Ok(fs.push(f))),
                }
            },
        }
    }
}

/// The tag ids of a filter.
pub open spec fn filter_model(f: EntityMatch) -> (Seq<TagId>, Seq<TagId>) {
    (f.required@, f.forbidden@)
}

/// `s` holds the entries of `v` in strictly increasing key order.
pub open spec fn is_sorted_arrangement<T>(s: Seq<(String, T)>, v: Seq<(String, T)>) -> bool {
    &&& s.len() == v.len()
    &&& strictly_sorted(keys_of(s))
    &&& forall|x: (String, T)| s.contains(x) <==> v.contains(x)
}

/// The entries of `v` in increasing key order.
pub open spec fn sorted_entries<T>(v: Seq<(String, T)>) -> Seq<(String, T)> {
    choose|s: Seq<(String, T)>| is_sorted_arrangement(s, v)
}

/// Two strictly sorted arrangements of the same entries agree on their
/// first `n` positions.
proof fn lemma_sorted_arrangement_prefix<T>(
    s1: Seq<(String, T)>,
    s2: Seq<(String, T)>,
    v: Seq<(String, T)>,
    n: nat,
)
    requires
        is_sorted_arrangement(s1, v),
        is_sorted_arrangement(s2, v),
        n <= s1.len(),
    ensures
        forall|m: int| 0 <= m < n ==> s1[m] == s2[m],
    decreases n,
{
    if n > 0 {
        let k = n - 1;
        lemma_sorted_arrangement_prefix(s1, s2, v, k as nat);
        let x = s1[k];
        let y = s2[k];
        assert(s1.contains(x));
        assert(v.contains(x));
        assert(s2.contains(x));
        let j = choose|j: int| 0 <= j < s2.len() && s2[j] == x;
        assert(s1.contains(y) && v.contains(y) && s2.contains(y));
        let i = choose|i: int| 0 <= i < s1.len() && s1[i] == y;
        if j < k {
            assert(s1[j] == x);
            assert(str_lt(keys_of(s1)[j], keys_of(s1)[k]));
            crate::text::lemma_str_lt_irreflexive(x.0@);
        }
        if i < k {
            assert(s2[i] == y);
            assert(str_lt(keys_of(s2)[i], keys_of(s2)[k]));
            crate::text::lemma_str_lt_irreflexive(y.0@);
        }
        if j > k && i > k {
            assert(str_lt(keys_of(s2)[k], keys_of(s2)[j]));
            assert(str_lt(keys_of(s1)[k], keys_of(s1)[i]));
            lemma_str_lt_asymmetric(x.0@, y.0@);
        }
    }
}

/// Two strictly sorted arrangements of the same entries are equal.
proof fn lemma_sorted_arrangement_unique<T>(s1: Seq<(String, T)>, s2: Seq<(String, T)>, v: Seq<(String, T)>)
    requires
        is_sorted_arrangement(s1, v),
        is_sorted_arrangement(s2, v),
    ensures
        s1 == s2,
{
    lemma_sorted_arrangement_prefix(s1, s2, v, s1.len());
    assert(s1 =~= s2);
}

/// Converting a match specification: more than `MAX_MATCH_PARAMS`
/// parameters is an error; otherwise the parameters are taken in
/// increasing name order and their filters converted in that order.
/// Returns the names, and the parameter names with their filters.
pub open spec fn match_spec_outcome(names: Seq<Seq<char>>, entries: Seq<(String, EntityMatchSchema)>) -> (
    Seq<Seq<char>>,
    Result<(Seq<Seq<char>>, Seq<(Seq<TagId>, Seq<TagId>)>), MatchSpecError>,
) {
    if entries.len() > MAX_MATCH_PARAMS {
        (names, Err(MatchSpecError::TooManyParams(entries.len() as usize)))
    } else {
        let sorted = sorted_entries(entries);
        let (n1, r1) = filters_outcome(names, sorted);
        match r1 {
            Err(e) => (n1, Err(MatchSpecError::Tags(e))),
            Ok(fs) => (n1, Ok((keys_of(sorted), fs))),
        }
    }
}

// ---------------------------------------------------------------------
// Actions.
// ---------------------------------------------------------------------

/// What a loaded action holds.
pub enum ActionModel<S> {
    SetVelocity { target: u8, velocity: Vec2<S> },
    ReverseVelocity { target: u8, axis: ReverseAxis },
    Spawn { template: Seq<char>, position: Vec2<S> },
    Despawn { target: u8 },
    Emit { event: Seq<char>, payload: Json },
    PlayAnimation { target: u8, clip: Seq<char>, priority: u8 },
}

/// The model of a loaded action.
pub open spec fn action_model<S>(a: Action<S>) -> ActionModel<S> {
    match a {
        Action::SetVelocity { target, velocity } => ActionModel::SetVelocity { target: target.0, velocity },
        Action::ReverseVelocity { target, axis } => ActionModel::ReverseVelocity { target: target.0, axis },
        Action::Spawn { template, position } => ActionModel::Spawn { template: template@, position },
        Action::Despawn { target } => ActionModel::Despawn { target: target.0 },
        Action::Emit { event, payload } => ActionModel::Emit { event: event@, payload: payload@ },
        Action::PlayAnimation { target, clip, priority } => ActionModel::PlayAnimation {
            target: target.0,
            clip: clip@,
            priority,
        },
    }
}

/// What an action error holds.
pub enum ActionErrorModel {
    UnknownParam(Seq<char>),
    PayloadNotObject(Json),
}

/// The model of an action error.
pub open spec fn action_error_model(e: ActionError) -> ActionErrorModel {
    match e {
        ActionError::UnknownParam(n) => ActionErrorModel::UnknownParam(n@),
        ActionError::PayloadNotObject(v) => ActionErrorModel::PayloadNotObject(v@),
    }
}

/// An emit payload: omitted (`null`) means the empty object; any other
/// non-object is an error.
pub open spec fn emit_payload_outcome(p: Json) -> Result<Json, ActionErrorModel> {
    match p {
        Json::Null => Ok(Json::Object(Seq::empty())),
        Json::Object(_) => Ok(p),
        _ => Err(ActionErrorModel::PayloadNotObject(p)),
    }
}

/// The index of parameter `name` among `params`.
pub open spec fn param_outcome(params: Seq<Seq<char>>, name: Seq<char>) -> Result<u8, ActionErrorModel> {
    match find_name(params, name) {
        Some(i) => Ok(i as u8),
        None => Err(ActionErrorModel::UnknownParam(name)),
    }
}

/// Converting one action against the rule's parameter names.
pub open spec fn action_outcome<S>(a: ActionSchema<S>, params: Seq<Seq<char>>) -> Result<
    ActionModel<S>,
    ActionErrorModel,
> {
    match a {
        ActionSchema::SetVelocity { entity, x, y } => match param_outcome(params, entity@) {
            Ok(t) => Ok(ActionModel::SetVelocity { target: t, velocity: Vec2 { x, y } }),
            Err(e) => Err(e),
        },
        ActionSchema::ReverseVelocity { entity, axis } => match param_outcome(params, entity@) {
            Ok(t) => Ok(ActionModel::ReverseVelocity { target: t, axis }),
            Err(e) => Err(e),
        },
        ActionSchema::Spawn { template, position } => Ok(ActionModel::Spawn { template: template@, position }),
        ActionSchema::Despawn { entity } => match param_outcome(params, entity@) {
            Ok(t) => Ok(ActionModel::Despawn { target: t }),
            Err(e) => Err(e),
        },
        ActionSchema::Emit { event, payload } => match emit_payload_outcome(payload@) {
            Ok(p) => Ok(ActionModel::Emit { event: event@, payload: p }),
            Err(e) => Err(e),
        },
        ActionSchema::PlayAnimation { entity, clip, priority } => match param_outcome(params, entity@) {
            Ok(t) => Ok(ActionModel::PlayAnimation { target: t, clip: clip@, priority }),
            Err(e) => Err(e),
        },
    }
}

/// Converting actions in order; the first failure, with its index, wins.
pub open spec fn actions_outcome<S>(actions: Seq<ActionSchema<S>>, params: Seq<Seq<char>>) -> Result<
    Seq<ActionModel<S>>,
    (int, ActionErrorModel),
>
    decreases actions.len(),
{
    if actions.len() == 0 {
        Ok(Seq::empty())
    } else {
        match actions_outcome(actions.drop_last(), params) {
            Err(e) => Err(e),
            Ok(done) => match action_outcome(actions.last(), params) {
                Err(e) => Err((actions.len() - 1, e)),
                Ok(m) => Ok(done.push(m)),
            },
        }
    }
}

// ---------------------------------------------------------------------
// Rules.
// ---------------------------------------------------------------------

/// What a rule error holds.
pub enum RuleErrorModel {
    NoActions,
    MatchSpec(MatchSpecError),
    Action { index: int, error: ActionErrorModel },
}

/// The model of a rule error.
pub open spec fn rule_error_model(e: RuleError) -> RuleErrorModel {
    match e {
        RuleError::NoActions => RuleErrorModel::NoActions,
        RuleError::MatchSpec(m) => RuleErrorModel::MatchSpec(m),
        RuleError::Action { index, error } => RuleErrorModel::Action {
            index: index as int,
            error: action_error_model(error),
        },
    }
}

/// Loading a rule against a registry holding `names`: a rule without
/// actions is refused first; then its match specification is converted
/// (interning tag names); then its actions, against the sorted parameter
/// names. Returns the final names, and the parameter names, filters and
/// actions.
pub open spec fn rule_outcome<S>(names: Seq<Seq<char>>, schema: RuleSchema<S>) -> (
    Seq<Seq<char>>,
    Result<(Seq<Seq<char>>, Seq<(Seq<TagId>, Seq<TagId>)>, Seq<ActionModel<S>>), RuleErrorModel>,
) {
    if schema.actions@.len() == 0 {
        (names, Err(RuleErrorModel::NoActions))
    } else {
        let (n1, r1) = match_spec_outcome(names, schema.match_spec@);
        match r1 {
            Err(e) => (n1, Err(RuleErrorModel::MatchSpec(e))),
            Ok((params, filters)) => match actions_outcome(schema.actions@, params) {
                Err((i, e)) => (n1, Err(RuleErrorModel::Action { index: i, error: e })),
                Ok(acts) => (n1, Ok((params, filters, acts))),
            },
        }
    }
}

// ---------------------------------------------------------------------
// Lemmas.
// ---------------------------------------------------------------------

pub proof fn lemma_intern_all_err_stays(names: Seq<Seq<char>>, list: Seq<Seq<char>>, k: nat)
    requires
        k <= list.len(),
        intern_all(names, list.take(k as int)).1 is Err,
    ensures
        intern_all(names, list) == intern_all(names, list.take(k as int)),
    decreases list.len() - k,
{
    if k < list.len() {
        assert(list.take(k + 1int).drop_last() =~= list.take(k as int));
        lemma_intern_all_err_stays(names, list, k + 1);
    } else {
        assert(list.take(k as int) =~= list);
    }
}

proof fn lemma_filters_err_stays(names: Seq<Seq<char>>, entries: Seq<(String, EntityMatchSchema)>, k: nat)
    requires
        k <= entries.len(),
        filters_outcome(names, entries.take(k as int)).1 is Err,
    ensures
        filters_outcome(names, entries) == filters_outcome(names, entries.take(k as int)),
    decreases entries.len() - k,
{
    if k < entries.len() {
        assert(entries.take(k + 1int).drop_last() =~= entries.take(k as int));
        lemma_filters_err_stays(names, entries, k + 1);
    } else {
        assert(entries.take(k as int) =~= entries);
    }
}

proof fn lemma_actions_err_stays<S>(actions: Seq<ActionSchema<S>>, params: Seq<Seq<char>>, k: nat)
    requires
        k <= actions.len(),
        actions_outcome(actions.take(k as int), params) is Err,
    ensures
        actions_outcome(actions, params) == actions_outcome(actions.take(k as int), params),
    decreases actions.len() - k,
{
    if k < actions.len() {
        assert(actions.take(k + 1int).drop_last() =~= actions.take(k as int));
        lemma_actions_err_stays(actions, params, k + 1);
    } else {
        assert(actions.take(k as int) =~= actions);
    }
}

// ---------------------------------------------------------------------
// Conversion.
// ---------------------------------------------------------------------

/// Interns `list` in order, stopping at the first failure.
fn intern_names(registry: &mut TagRegistry, list: &Vec<String>) -> (r: Result<Vec<TagId>, CoreError>)
    requires
        old(registry).wf(),
    ensures
        final(registry).wf(),
        intern_all(old(registry)@, string_views(list@)) == (final(registry)@, match r {
            Ok(ids) => Ok(ids@),
            Err(e) => Err(e),
        }),
{
    let ghost views = string_views(list@);
    let ghost start = registry@;
    let mut ids: Vec<TagId> = Vec::new();
    let mut i: usize = 0;
    assert(views.take(0) =~= Seq::<Seq<char>>::empty());
    while i < list.len()
        invariant
            registry.wf(),
            start == old(registry)@,
            views == string_views(list@),
            i <= list@.len(),
            intern_all(start, views.take(i as int)) == (registry@, Ok::<Seq<TagId>, CoreError>(ids@)),
        decreases list@.len() - i,
    {
        assert(views.take(i + 1).drop_last() =~= views.take(i as int));
        assert(views.take(i + 1).last() == list@[i as int]@);
        match registry.intern(list[i].as_str()) {
            Ok(id) => {
                ids.push(id);
            },
            Err(e) => {
                proof {
                    lemma_intern_all_err_stays(start, views, (i + 1) as nat);
                }
                return Err(e);
            },
        }
        i = i + 1;
    }
    assert(views.take(list@.len() as int) =~= views);
    Ok(ids)
}

/// Converts one tag filter, interning its tag names.
fn convert_entity_match(schema: &EntityMatchSchema, registry: &mut TagRegistry) -> (r: Result<EntityMatch, CoreError>)
    requires
        old(registry).wf(),
    ensures
        final(registry).wf(),
        filter_outcome(old(registry)@, *schema) == (final(registry)@, match r {
            Ok(f) => Ok(filter_model(f)),
            Err(e) => Err(e),
        }),
{
    let required = match intern_names(registry, &schema.with) {
        Ok(ids) => ids,
        Err(e) => return Err(e),
    };
    let forbidden = match intern_names(registry, &schema.without) {
        Ok(ids) => ids,
        Err(e) => return Err(e),
    };
    Ok(EntityMatch { required, forbidden })
}

/// Converts a match specification: parameters in increasing name order,
/// each with its filter; tag names are interned along the way.
pub fn convert_match_spec(entries: Vec<(String, EntityMatchSchema)>, registry: &mut TagRegistry) -> (r: Result<
    MatchSpec,
    MatchSpecError,
>)
    requires
        old(registry).wf(),
        distinct_keys(keys_of(entries@)),
    ensures
        final(registry).wf(),
        match_spec_outcome(old(registry)@, entries@) == (final(registry)@, match r {
            Ok(ms) => Ok((string_views(ms.params@), ms.filters@.map_values(|f: EntityMatch| filter_model(f)))),
            Err(e) => Err(e),
        }),
        r matches Ok(ms) ==> ms.params@.len() <= MAX_MATCH_PARAMS && ms.params@.len() == ms.filters@.len(),
{
    if entries.len() > MAX_MATCH_PARAMS {
        return Err(MatchSpecError::TooManyParams(entries.len()));
    }
    let ghost input = entries@;
    let sorted = sort_by_key(entries);
    proof {
        assert(is_sorted_arrangement(sorted@, input));
        lemma_sorted_arrangement_unique(sorted@, sorted_entries(input), input);
    }
    let ghost start = registry@;
    let mut params: Vec<String> = Vec::new();
    let mut filters: Vec<EntityMatch> = Vec::new();
    let mut i: usize = 0;
    assert(sorted@.take(0) =~= Seq::<(String, EntityMatchSchema)>::empty());
    assert(filters@.map_values(|f: EntityMatch| filter_model(f)) =~= Seq::<(Seq<TagId>, Seq<TagId>)>::empty());
    while i < sorted.len()
        invariant
            registry.wf(),
            start == old(registry)@,
            input.len() <= MAX_MATCH_PARAMS,
            input == entries@,
            sorted@ == sorted_entries(input),
            i <= sorted@.len(),
            params@.len() == i,
            filters@.len() == i,
            forall|k: int| 0 <= k < i ==> #[trigger] params@[k]@ == sorted@[k].0@,
            filters_outcome(start, sorted@.take(i as int)) == (registry@, Ok::<
                Seq<(Seq<TagId>, Seq<TagId>)>,
                CoreError,
            >(filters@.map_values(|f: EntityMatch| filter_model(f)))),
        decreases sorted@.len() - i,
    {
        assert(sorted@.take(i + 1).drop_last() =~= sorted@.take(i as int));
        match convert_entity_match(&sorted[i].1, registry) {
            Ok(f) => {
                let ghost before = filters@;
                filters.push(f);
                assert(filters@.map_values(|f: EntityMatch| filter_model(f)) =~= before.map_values(
                    |f: EntityMatch| filter_model(f),
                ).push(filter_model(f)));
                params.push(sorted[i].0.clone());
            },
            Err(e) => {
                proof {
                    lemma_filters_err_stays(start, sorted@, (i + 1) as nat);
                }
                return Err(MatchSpecError::Tags(e));
            },
        }
        i = i + 1;
    }
    assert(sorted@.take(sorted@.len() as int) =~= sorted@);
    assert(string_views(params@) =~= keys_of(sorted@));
    Ok(MatchSpec { params, filters })
}

/// Parameter ids by name: each parameter with its position.
fn param_ids(match_spec: &MatchSpec) -> (r: Vec<(String, ParamId)>)
    requires
        match_spec.params@.len() <= MAX_MATCH_PARAMS,
    ensures
        r@.len() == match_spec.params@.len(),
        forall|i: int| 0 <= i < r@.len() ==> #[trigger] r@[i].0@ == match_spec.params@[i]@ && r@[i].1 == ParamId(
            i as u8,
        ),
{
    let mut out: Vec<(String, ParamId)> = Vec::new();
    let mut i: usize = 0;
    while i < match_spec.params.len()
        invariant
            match_spec.params@.len() <= MAX_MATCH_PARAMS,
            i <= match_spec.params@.len(),
            out@.len() == i,
            forall|k: int| 0 <= k < i ==> #[trigger] out@[k].0@ == match_spec.params@[k]@ && out@[k].1 == ParamId(
                k as u8,
            ),
        decreases match_spec.params@.len() - i,
    {
        out.push((match_spec.params[i].clone(), ParamId(i as u8)));
        i = i + 1;
    }
    out
}

/// The id of parameter `name`.
fn resolve_param(param_ids: &Vec<(String, ParamId)>, name: &String) -> (r: Result<ParamId, ActionError>)
    ensures
        match find_name(param_ids@.map_values(|e: (String, ParamId)| e.0@), name@) {
            Some(i) => r == Ok::<ParamId, ActionError>(param_ids@[i].1),
            None => r matches Err(ActionError::UnknownParam(n)) && n@ == name@,
        },
{
    let ghost names = param_ids@.map_values(|e: (String, ParamId)| e.0@);
    proof {
        lemma_find_name(names, name@);
    }
    let mut i: usize = 0;
    while i < param_ids.len()
        invariant
            names == param_ids@.map_values(|e: (String, ParamId)| e.0@),
            i <= param_ids@.len(),
            forall|k: int| 0 <= k < i ==> names[k] != name@,
        decreases param_ids@.len() - i,
    {
        if param_ids[i].0 == *name {
            proof {
                lemma_find_name(names, name@);
                assert(names[i as int] == name@);
                match find_name(names, name@) {
                    Some(j) => {
                        if j < i {
                            assert(names[j] != name@);
                        } else if j > i {
                            assert(names[i as int] != name@);
                        }
                    },
                    None => {
                        assert(names[i as int] != name@);
                    },
                }
            }
            return Ok(param_ids[i].1);
        }
        assert(names[i as int] == param_ids@[i as int].0@);
        i = i + 1;
    }
    proof {
        lemma_find_name(names, name@);
    }
    Err(ActionError::UnknownParam(name.clone()))
}

/// An emit payload: omitted means the empty object; other non-objects
/// are refused.
fn object_payload(payload: JsonValue) -> (r: Result<JsonValue, ActionError>)
    ensures
        match emit_payload_outcome(payload@) {
            Ok(p) => r matches Ok(v) && v@ == p,
            Err(e) => r matches Err(x) && action_error_model(x) == e,
        },
{
    match payload {
        JsonValue::Null => Ok(JsonValue::Object(JsonMap::new())),
        JsonValue::Object(_) => Ok(payload),
        other => Err(ActionError::PayloadNotObject(other)),
    }
}

/// Converts one action, resolving its target parameter by name.
fn convert_action<S>(action: ActionSchema<S>, param_ids: &Vec<(String, ParamId)>) -> (r: Result<Action<S>, ActionError>)
    requires
        param_ids@.len() <= MAX_MATCH_PARAMS,
        forall|i: int| 0 <= i < param_ids@.len() ==> #[trigger] param_ids@[i].1 == ParamId(i as u8),
    ensures
        match action_outcome(action, param_ids@.map_values(|e: (String, ParamId)| e.0@)) {
            Ok(m) => r matches Ok(a) && action_model(a) == m,
            Err(e) => r matches Err(x) && action_error_model(x) == e,
        },
{
    let ghost names = param_ids@.map_values(|e: (String, ParamId)| e.0@);
    proof {
        lemma_find_name(names, Seq::empty());
    }
    match action {
        ActionSchema::SetVelocity { entity, x, y } => {
            proof {
                lemma_find_name(names, entity@);
            }
            match resolve_param(param_ids, &entity) {
                Ok(target) => Ok(Action::SetVelocity { target, velocity: Vec2 { x, y } }),
                Err(e) => Err(e),
            }
        },
        ActionSchema::ReverseVelocity { entity, axis } => {
            proof {
                lemma_find_name(names, entity@);
            }
            match resolve_param(param_ids, &entity) {
                Ok(target) => Ok(Action::ReverseVelocity { target, axis }),
                Err(e) => Err(e),
            }
        },
        ActionSchema::Spawn { template, position } => Ok(Action::Spawn { template, position }),
        ActionSchema::Despawn { entity } => {
            proof {
                lemma_find_name(names, entity@);
            }
            match resolve_param(param_ids, &entity) {
                Ok(target) => Ok(Action::Despawn { target }),
                Err(e) => Err(e),
            }
        },
        ActionSchema::Emit { event, payload } => match object_payload(payload) {
            Ok(p) => Ok(Action::Emit { event, payload: p }),
            Err(e) => Err(e),
        },
        ActionSchema::PlayAnimation { entity, clip, priority } => {
            proof {
                lemma_find_name(names, entity@);
            }
            match resolve_param(param_ids, &entity) {
                Ok(target) => Ok(Action::PlayAnimation { target, clip, priority }),
                Err(e) => Err(e),
            }
        },
    }
}

/// Loads one rule: refuses a rule without actions, converts its match
/// specification (interning tag names into `registry`) and then its
/// actions in order; the first failure is returned.
pub fn convert_rule<S>(id: RuleId, schema: RuleSchema<S>, registry: &mut TagRegistry) -> (r: Result<Rule<S>, RuleError>)
    requires
        old(registry).wf(),
        distinct_keys(keys_of(schema.match_spec@)),
    ensures
        final(registry).wf(),
        rule_outcome(old(registry)@, schema) == (final(registry)@, match r {
            Ok(rule) => Ok(
                (
                    string_views(rule.match_spec.params@),
                    rule.match_spec.filters@.map_values(|f: EntityMatch| filter_model(f)),
                    rule.actions@.map_values(|a: Action<S>| action_model(a)),
                ),
            ),
            Err(e) => Err(rule_error_model(e)),
        }),
        r matches Ok(rule) ==> rule.id == id && rule.event_name == schema.event,
{
    if schema.actions.len() == 0 {
        return Err(RuleError::NoActions);
    }
    let ghost all = schema.actions@;
    let ghost entries = schema.match_spec@;
    let RuleSchema { event, match_spec, actions } = schema;
    let match_spec = match convert_match_spec(match_spec, registry) {
        Ok(ms) => ms,
        Err(e) => return Err(RuleError::MatchSpec(e)),
    };
    let ghost params = string_views(match_spec.params@);
    let ghost filter_models = match_spec.filters@.map_values(|f: EntityMatch| filter_model(f));
    let ids = param_ids(&match_spec);
    assert forall|k: int| 0 <= k < ids@.len() implies #[trigger] ids@[k].1 == ParamId(k as u8) by {
        assert(ids@[k].0@ == match_spec.params@[k]@);
    }
    assert(ids@.map_values(|e: (String, ParamId)| e.0@) =~= params);
    let mut rest = actions;
    let mut converted: Vec<Action<S>> = Vec::new();
    let mut i: usize = 0;
    assert(all.take(0) =~= Seq::<ActionSchema<S>>::empty());
    assert(converted@.map_values(|a: Action<S>| action_model(a)) =~= Seq::<ActionModel<S>>::empty());
    assert(all.skip(0) =~= all);
    while rest.len() > 0
        invariant
            registry.wf(),
            all == schema.actions@,
            all.len() > 0,
            all.len() <= usize::MAX,
            entries == schema.match_spec@,
            match_spec_outcome(old(registry)@, entries) == (registry@, Ok::<
                (Seq<Seq<char>>, Seq<(Seq<TagId>, Seq<TagId>)>),
                MatchSpecError,
            >((params, filter_models))),
            i + rest@.len() == all.len(),
            rest@ == all.skip(i as int),
            ids@.len() <= MAX_MATCH_PARAMS,
            forall|k: int| 0 <= k < ids@.len() ==> #[trigger] ids@[k].1 == ParamId(k as u8),
            ids@.map_values(|e: (String, ParamId)| e.0@) == params,
            actions_outcome(all.take(i as int), params) == Ok::<Seq<ActionModel<S>>, (int, ActionErrorModel)>(
                converted@.map_values(|a: Action<S>| action_model(a)),
            ),
        decreases rest@.len(),
    {
        let a = rest.remove(0);
        assert(all.take(i + 1).drop_last() =~= all.take(i as int));
        assert(all.take(i + 1).last() == a);
        match convert_action(a, &ids) {
            Ok(x) => {
                let ghost before = converted@;
                converted.push(x);
                assert(converted@.map_values(|a: Action<S>| action_model(a)) =~= before.map_values(
                    |a: Action<S>| action_model(a),
                ).push(action_model(x)));
            },
            Err(e) => {
                proof {
                    lemma_actions_err_stays(all, params, (i + 1) as nat);
                }
                return Err(RuleError::Action { index: i, error: e });
            },
        }
        i = i + 1;
        assert(rest@ =~= all.skip(i as int));
    }
    assert(all.take(i as int) =~= all);
    Ok(Rule { id, event_name: event, match_spec, actions: converted })
}

/// Law: what one loaded action keeps of its schema. A loaded
/// `set_velocity` carries exactly the schema's `x` and `y`, a
/// `reverse_velocity` its axis, a `spawn` its template and position, an
/// `emit` its event name, a `play_animation` its clip and priority; each
/// action on an entity targets the parameter the schema names.
pub proof fn law_loaded_action_keeps_its_fields<S>(a: ActionSchema<S>, params: Seq<Seq<char>>)
    requires
        params.len() <= MAX_MATCH_PARAMS,
    ensures
        action_outcome(a, params) matches Ok(m) ==> {
            &&& a matches ActionSchema::SetVelocity { entity, x, y } ==> (m matches ActionModel::SetVelocity {
                target,
                velocity,
            } && velocity.x == x && velocity.y == y && (target as int) < params.len() && params[target as int]
                == entity@)
            &&& a matches ActionSchema::ReverseVelocity { entity, axis } ==> (m matches ActionModel::ReverseVelocity {
                target,
                axis: loaded,
            } && loaded == axis && (target as int) < params.len() && params[target as int] == entity@)
            &&& a matches ActionSchema::Despawn { entity } ==> (m matches ActionModel::Despawn { target } && (
            target as int) < params.len() && params[target as int] == entity@)
            &&& a matches ActionSchema::Spawn { template, position } ==> (m matches ActionModel::Spawn {
                template: name,
                position: at,
            } && name == template@ && at == position)
            &&& a matches ActionSchema::Emit { event, .. } ==> (m matches ActionModel::Emit { event: name, .. } && name
                == event@)
            &&& a matches ActionSchema::PlayAnimation { entity, clip, priority } ==> (
            m matches ActionModel::PlayAnimation { target, clip: c, priority: p } && c == clip@ && p == priority && (
            target as int) < params.len() && params[target as int] == entity@)
        },
{
    match a {
        ActionSchema::SetVelocity { entity, .. } => lemma_find_name(params, entity@),
        ActionSchema::ReverseVelocity { entity, .. } => lemma_find_name(params, entity@),
        ActionSchema::Despawn { entity } => lemma_find_name(params, entity@),
        ActionSchema::PlayAnimation { entity, .. } => lemma_find_name(params, entity@),
        _ => {},
    }
    match a {
        ActionSchema::SetVelocity { entity, .. } | ActionSchema::ReverseVelocity { entity, .. } | ActionSchema::Despawn {
            entity,
        } | ActionSchema::PlayAnimation { entity, .. } => {
            if let Some(i) = find_name(params, entity@) {
                assert((i as u8) as int == i);
            }
        },
        _ => {},
    }
}

/// Law: loading keeps what each action says. When a rule's actions load,
/// there is one loaded action per schema action, in order, each the one
/// its schema action loads to (see `law_loaded_action_keeps_its_fields`);
/// in particular a `set_velocity` keeps exactly its `x` and `y` and a
/// `reverse_velocity` its axis, each targeting the parameter it names.
pub proof fn law_loaded_actions_keep_their_fields<S>(actions: Seq<ActionSchema<S>>, params: Seq<Seq<char>>)
    requires
        params.len() <= MAX_MATCH_PARAMS,
    ensures
        actions_outcome(actions, params) matches Ok(ms) ==> {
            &&& ms.len() == actions.len()
            &&& forall|k: int| 0 <= k < actions.len() ==> action_outcome(#[trigger] actions[k], params) == Ok::<
                ActionModel<S>,
                ActionErrorModel,
            >(ms[k])
        },
        forall|k: int| 0 <= k < actions.len() ==> {
            &&& #[trigger] actions[k] matches ActionSchema::SetVelocity { entity, x, y } ==> (action_outcome(
                actions[k],
                params,
            ) matches Ok(ActionModel::SetVelocity { target, velocity }) ==> velocity.x == x && velocity.y == y
                && (target as int) < params.len() && params[target as int] == entity@)
            &&& actions[k] matches ActionSchema::ReverseVelocity { entity, axis } ==> (action_outcome(
                actions[k],
                params,
            ) matches Ok(ActionModel::ReverseVelocity { target, axis: loaded }) ==> loaded == axis && (target as int)
                < params.len() && params[target as int] == entity@)
        },
    decreases actions.len(),
{
    assert forall|k: int| 0 <= k < actions.len() implies {
        &&& #[trigger] actions[k] matches ActionSchema::SetVelocity { entity, x, y } ==> (action_outcome(
            actions[k],
            params,
        ) matches Ok(ActionModel::SetVelocity { target, velocity }) ==> velocity.x == x && velocity.y == y && (
        target as int) < params.len() && params[target as int] == entity@)
        &&& actions[k] matches ActionSchema::ReverseVelocity { entity, axis } ==> (action_outcome(
            actions[k],
            params,
        ) matches Ok(ActionModel::ReverseVelocity { target, axis: loaded }) ==> loaded == axis && (target as int)
            < params.len() && params[target as int] == entity@)
    } by {
        law_loaded_action_keeps_its_fields(actions[k], params);
    }
    if actions.len() > 0 {
        let init = actions.drop_last();
        law_loaded_actions_keep_their_fields(init, params);
        if let Ok(ms) = actions_outcome(actions, params) {
            let prev = actions_outcome(init, params)->Ok_0;
            assert(ms == prev.push(ms[ms.len() - 1]));
            assert forall|k: int| 0 <= k < actions.len() implies action_outcome(#[trigger] actions[k], params) == Ok::<
                ActionModel<S>,
                ActionErrorModel,
            >(ms[k]) by {
                if k < init.len() {
                    assert(init[k] == actions[k]);
                    assert(ms[k] == prev[k]);
                }
            }
        }
    }
}

} // verus!
