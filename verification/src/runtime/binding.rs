use vstd::prelude::*;

use crate::ecs::entity::Entity;
use crate::ecs::world::{World, WorldView};
use crate::event::payload::{entity_json, entity_value};
use crate::json::{
    clone_value, json_seq_view, keys_distinct, lemma_seq_view_len, lemma_seq_view_push, Json, JsonMap, JsonNumber,
    JsonValue,
};
use crate::runtime::rules::model::EntityMatch;
use crate::tag::set::TagSet;
use crate::text::{debug_quoted, debug_quoted_string};

verus! {

// ---------------------------------------------------------------------
// Tag filters.
// ---------------------------------------------------------------------

/// Whether entity `e` passes tag filter `filter`: it carries every
/// required tag and no forbidden one. An entity without a tag set passes
/// only a filter that requires nothing.
pub open spec fn tags_match<S, R>(w: WorldView<S, R>, e: Entity, filter: EntityMatch) -> bool {
    match w.component::<TagSet>(e) {
        None => filter.required@.len() == 0,
        Some(tags) => {
            &&& forall|i: int| 0 <= i < filter.required@.len() ==> tags@.contains(filter.required@[i].0 as int)
            &&& forall|i: int| 0 <= i < filter.forbidden@.len() ==> !tags@.contains(filter.forbidden@[i].0 as int)
        },
    }
}

/// Whether `entity` passes tag filter `filter`.
pub(crate) fn entity_matches<S, R>(world: &World<S, R>, entity: Entity, filter: &EntityMatch) -> (r: bool)
    requires
        world.wf(),
    ensures
        r == tags_match(world@, entity, *filter),
{
    match world.get::<TagSet>(entity) {
        None => filter.required.len() == 0,
        Some(tags) => {
            let mut i: usize = 0;
            while i < filter.required.len()
                invariant
                    world@.component::<TagSet>(entity) == Some(*tags),
                    i <= filter.required@.len(),
                    forall|k: int| 0 <= k < i ==> tags@.contains(filter.required@[k].0 as int),
                decreases filter.required@.len() - i,
            {
                if !tags.contains(filter.required[i]) {
                    return false;
                }
                i = i + 1;
            }
            let mut j: usize = 0;
            while j < filter.forbidden.len()
                invariant
                    world@.component::<TagSet>(entity) == Some(*tags),
                    forall|k: int| 0 <= k < filter.required@.len() ==> tags@.contains(filter.required@[k].0 as int),
                    j <= filter.forbidden@.len(),
                    forall|k: int| 0 <= k < j ==> !tags@.contains(filter.forbidden@[k].0 as int),
                decreases filter.forbidden@.len() - j,
            {
                if tags.contains(filter.forbidden[j]) {
                    return false;
                }
                j = j + 1;
            }
            true
        },
    }
}

// ---------------------------------------------------------------------
// Parameter names.
// ---------------------------------------------------------------------

/// The first position of `name` in `names`.
pub open spec fn find_name(names: Seq<Seq<char>>, name: Seq<char>) -> Option<int>
    decreases names.len(),
{
    if names.len() == 0 {
        None
    } else {
        match find_name(names.drop_last(), name) {
            Some(i) => Some(i),
            None => if names.last() == name {
                Some(names.len() - 1)
            } else {
                None
            },
        }
    }
}

/// `find_name` finds the first occurrence.
pub proof fn lemma_find_name(names: Seq<Seq<char>>, name: Seq<char>)
    ensures
        match find_name(names, name) {
            Some(i) => 0 <= i < names.len() && names[i] == name && forall|k: int| 0 <= k < i ==> names[k] != name,
            None => forall|k: int| 0 <= k < names.len() ==> names[k] != name,
        },
    decreases names.len(),
{
    if names.len() > 0 {
        lemma_find_name(names.drop_last(), name);
        assert forall|k: int| 0 <= k < names.len() - 1 implies names.drop_last()[k] == names[k] by {}
    }
}

/// Entities bound to match parameters, by parameter position.
pub(crate) struct Bindings {
    pub(crate) params: Vec<String>,
    pub(crate) entities: Vec<Entity>,
}

impl Bindings {
    /// The bound parameter names.
    pub(crate) open spec fn names(&self) -> Seq<Seq<char>> {
        self.params@.map_values(|s: String| s@)
    }

    /// Names and entities are parallel.
    pub(crate) open spec fn wf(&self) -> bool {
        self.params@.len() == self.entities@.len()
    }

    /// The entity bound to parameter `param`.
    pub(crate) fn entity(&self, param: u8) -> (r: Option<Entity>)
        ensures
            (param as int) < self.entities@.len() ==> r == Some(self.entities@[param as int]),
            (param as int) >= self.entities@.len() ==> r is None,
    {
        let i = param as usize;
        if i < self.entities.len() {
            Some(self.entities[i])
        } else {
            None
        }
    }

    /// The entity bound to the first parameter named `name`.
    pub(crate) fn entity_by_name(&self, name: &str) -> (r: Option<Entity>)
        requires
            self.wf(),
        ensures
            match find_name(self.names(), name@) {
                Some(i) => r == Some(self.entities@[i]),
                None => r is None,
            },
    {
        proof {
            lemma_find_name(self.names(), name@);
        }
        let owned = name.to_owned();
        let mut i: usize = 0;
        while i < self.params.len()
            invariant
                self.wf(),
                owned@ == name@,
                i <= self.params@.len(),
                forall|k: int| 0 <= k < i ==> self.names()[k] != name@,
            decreases self.params@.len() - i,
        {
            if self.params[i] == owned {
                proof {
                    lemma_find_name(self.names(), name@);
                    assert(self.names()[i as int] == name@);
                    match find_name(self.names(), name@) {
                        Some(j) => {
                            if j < i {
                                assert(self.names()[j] != name@);
                            } else if j > i {
                                assert(self.names()[i as int] != name@);
                            }
                        },
                        None => {
                            assert(self.names()[i as int] != name@);
                        },
                    }
                }
                return Some(self.entities[i]);
            }
            assert(self.names()[i as int] == self.params@[i as int]@);
            i = i + 1;
        }
        None
    }
}

// ---------------------------------------------------------------------
// Payload substitution.
// ---------------------------------------------------------------------

/// Reason given for a `"$name"` string that names no parameter: the
/// caller's `unknown` prefix followed by the quoted string.
pub open spec fn unknown_binding_reason(unknown: Seq<char>, text: Seq<char>) -> Seq<char> {
    unknown + debug_quoted(text)
}

/// `j` with every string `"$name"` replaced by the JSON form of the entity
/// bound to parameter `name`; the first unknown name, in document order,
/// is an error, reported with prefix `unknown`.
pub open spec fn substitute(j: Json, names: Seq<Seq<char>>, entities: Seq<Entity>, unknown: Seq<char>) -> Result<Json, Seq<char>>
    decreases j, 0nat,
{
    match j {
        Json::Str(t) => if t.len() > 0 && t[0] == '$' {
            match find_name(names, t.subrange(1, t.len() as int)) {
                Some(i) => Ok(entity_json(entities[i])),
                None => Err(unknown_binding_reason(unknown, t)),
            }
        } else {
            Ok(j)
        },
        Json::Array(items) => match substitute_items(items, names, entities, unknown) {
            Ok(v) => Ok(Json::Array(v)),
            Err(m) => Err(m),
        },
        Json::Object(fields) => match substitute_fields(fields, names, entities, unknown) {
            Ok(v) => Ok(Json::Object(v)),
            Err(m) => Err(m),
        },
        _ => Ok(j),
    }
}

/// `substitute` over array items, left to right.
pub open spec fn substitute_items(items: Seq<Json>, names: Seq<Seq<char>>, entities: Seq<Entity>, unknown: Seq<char>) -> Result<
    Seq<Json>,
    Seq<char>,
>
    decreases items, items.len(),
{
    if items.len() == 0 {
        Ok(Seq::empty())
    } else {
        proof {
            assert(decreases_to!(items => items[items.len() - 1]));
        }
        match substitute_items(items.drop_last(), names, entities, unknown) {
            Err(m) => Err(m),
            Ok(done) => match substitute(items.last(), names, entities, unknown) {
                Err(m) => Err(m),
                Ok(v) => Ok(done.push(v)),
            },
        }
    }
}

/// `substitute` over object member values, in member order; keys are kept.
pub open spec fn substitute_fields(
    fields: Seq<(Seq<char>, Json)>,
    names: Seq<Seq<char>>,
    entities: Seq<Entity>,
    unknown: Seq<char>,
) -> Result<Seq<(Seq<char>, Json)>, Seq<char>>
    decreases fields, fields.len(),
{
    if fields.len() == 0 {
        Ok(Seq::empty())
    } else {
        proof {
            assert(decreases_to!(fields => fields[fields.len() - 1]));
        }
        match substitute_fields(fields.drop_last(), names, entities, unknown) {
            Err(m) => Err(m),
            Ok(done) => match substitute(fields.last().1, names, entities, unknown) {
                Err(m) => Err(m),
                Ok(v) => Ok(done.push((fields.last().0, v))),
            },
        }
    }
}

// ---------------------------------------------------------------------
// Substituting payloads.
// ---------------------------------------------------------------------

proof fn lemma_items_err_stays(s: Seq<Json>, k: nat, names: Seq<Seq<char>>, entities: Seq<Entity>, unknown: Seq<char>)
    requires
        k <= s.len(),
        substitute_items(s.take(k as int), names, entities, unknown) is Err,
    ensures
        substitute_items(s, names, entities, unknown) == substitute_items(s.take(k as int), names, entities, unknown),
    decreases s.len() - k,
{
    if k < s.len() {
        assert(s.take(k + 1int).drop_last() =~= s.take(k as int));
        lemma_items_err_stays(s, k + 1, names, entities, unknown);
    } else {
        assert(s.take(k as int) =~= s);
    }
}

proof fn lemma_fields_err_stays(
    s: Seq<(Seq<char>, Json)>,
    k: nat,
    names: Seq<Seq<char>>,
    entities: Seq<Entity>,
    unknown: Seq<char>,
)
    requires
        k <= s.len(),
        substitute_fields(s.take(k as int), names, entities, unknown) is Err,
    ensures
        substitute_fields(s, names, entities, unknown) == substitute_fields(s.take(k as int), names, entities, unknown),
    decreases s.len() - k,
{
    if k < s.len() {
        assert(s.take(k + 1int).drop_last() =~= s.take(k as int));
        lemma_fields_err_stays(s, k + 1, names, entities, unknown);
    } else {
        assert(s.take(k as int) =~= s);
    }
}

/// `value` with every `"$name"` string replaced by the JSON form of the
/// entity bound to parameter `name`; an unknown name is reported as
/// `unknown` followed by the quoted string.
pub(crate) fn substitute_payload(value: &JsonValue, b: &Bindings, unknown: &str) -> (r: Result<JsonValue, String>)
    requires
        b.wf(),
    ensures
        match substitute(value@, b.names(), b.entities@, unknown@) {
            Ok(j) => r matches Ok(x) && x@ == j,
            Err(m) => r matches Err(x) && x@ == m,
        },
    decreases value@,
{
    match value {
        JsonValue::String(text) => {
            let t = text.as_str();
            let n = t.unicode_len();
            if n > 0 && t.get_char(0) == '$' {
                let name = t.substring_char(1, n);
                match b.entity_by_name(name) {
                    Some(e) => Ok(entity_value(e)),
                    None => {
                        let mut m = unknown.to_owned();
                        let quoted = debug_quoted_string(t);
                        m.append(quoted.as_str());
                        Err(m)
                    },
                }
            } else {
                Ok(clone_value(value))
            }
        },
        JsonValue::Array(items) => {
            proof {
                lemma_seq_view_len(items@);
            }
            let ghost views = json_seq_view(items@);
            let ghost names = b.names();
            let ghost ents = b.entities@;
            let mut out: Vec<JsonValue> = Vec::new();
            let mut i: usize = 0;
            while i < items.len()
                invariant
                    b.wf(),
                    names == b.names(),
                    ents == b.entities@,
                    value@ == Json::Array(views),
                    views == json_seq_view(items@),
                    views.len() == items@.len(),
                    forall|k: int| 0 <= k < items@.len() ==> #[trigger] views[k] == items@[k]@,
                    i <= items@.len(),
                    substitute_items(views.take(i as int), names, ents, unknown@) == Ok::<Seq<Json>, Seq<char>>(
                        json_seq_view(out@),
                    ),
                decreases items@.len() - i,
            {
                proof {
                    assert(decreases_to!(value@ => views));
                    assert(decreases_to!(views => views[i as int]));
                    assert(views.take(i + 1).drop_last() =~= views.take(i as int));
                    assert(views.take(i + 1).last() == items@[i as int]@);
                }
                match substitute_payload(&items[i], b, unknown) {
                    Err(m) => {
                        proof {
                            lemma_items_err_stays(views, (i + 1) as nat, names, ents, unknown@);
                        }
                        return Err(m);
                    },
                    Ok(x) => {
                        proof {
                            lemma_seq_view_push(out@, x);
                        }
                        out.push(x);
                    },
                }
                i = i + 1;
            }
            assert(views.take(items@.len() as int) =~= views);
            Ok(JsonValue::Array(out))
        },
        JsonValue::Object(m) => {
            let n = m.len();
            let ghost fields = m@;
            let ghost names = b.names();
            let ghost ents = b.entities@;
            let mut out = JsonMap::new();
            let mut i: usize = 0;
            while i < n
                invariant
                    b.wf(),
                    names == b.names(),
                    ents == b.entities@,
                    value@ == Json::Object(fields),
                    fields == m@,
                    n == fields.len(),
                    keys_distinct(fields),
                    i <= n,
                    out@.len() == i,
                    forall|k: int| 0 <= k < i ==> out@[k].0 == fields[k].0,
                    substitute_fields(fields.take(i as int), names, ents, unknown@) == Ok::<
                        Seq<(Seq<char>, Json)>,
                        Seq<char>,
                    >(out@),
                decreases n - i,
            {
                let (key, item) = m.entry(i);
                proof {
                    assert(decreases_to!(value@ => fields));
                    assert(decreases_to!(fields => fields[i as int]));
                    assert(decreases_to!(fields[i as int] => fields[i as int].1));
                    assert(fields.take(i + 1).drop_last() =~= fields.take(i as int));
                    assert(fields.take(i + 1).last() == fields[i as int]);
                }
                match substitute_payload(item, b, unknown) {
                    Err(e) => {
                        proof {
                            lemma_fields_err_stays(fields, (i + 1) as nat, names, ents, unknown@);
                        }
                        return Err(e);
                    },
                    Ok(x) => {
                        proof {
                            assert forall|k: int| 0 <= k < out@.len() implies out@[k].0 != key@ by {
                                assert(fields[k].0 != fields[i as int].0);
                            }
                        }
                        out.insert(key.clone(), x);
                    },
                }
                i = i + 1;
            }
            assert(fields.take(n as int) =~= fields);
            Ok(JsonValue::Object(out))
        },
        _ => Ok(clone_value(value)),
    }
}

/// Law: what a tag filter lets through. An entity with a tag set passes
/// exactly when the set holds every required tag and none of the
/// forbidden ones: one forbidden tag present, or one required tag
/// missing, makes it fail. An entity without a tag set passes only a
/// filter that requires nothing, whatever it forbids.
pub proof fn law_tag_filter<S, R>(w: WorldView<S, R>, e: Entity, filter: EntityMatch)
    ensures
        w.component::<TagSet>(e) matches Some(tags) ==> (forall|i: int|
            0 <= i < filter.forbidden@.len() && #[trigger] tags@.contains(filter.forbidden@[i].0 as int)
                ==> !tags_match(w, e, filter)),
        w.component::<TagSet>(e) matches Some(tags) ==> (forall|i: int|
            0 <= i < filter.required@.len() && !#[trigger] tags@.contains(filter.required@[i].0 as int)
                ==> !tags_match(w, e, filter)),
        w.component::<TagSet>(e) matches Some(tags) ==> ((forall|i: int|
            0 <= i < filter.required@.len() ==> #[trigger] tags@.contains(filter.required@[i].0 as int)) && (
        forall|i: int| 0 <= i < filter.forbidden@.len() ==> !#[trigger] tags@.contains(filter.forbidden@[i].0 as int))
            ==> tags_match(w, e, filter)),
        w.component::<TagSet>(e) is None ==> (tags_match(w, e, filter) <==> filter.required@.len() == 0),
{
}

/// Law: what substitution does to a string. A string `"$name"` whose
/// `name` is a bound parameter becomes the JSON form `{index, generation}`
/// of the entity bound to the first parameter of that name; a `"$name"`
/// whose name is not bound is an error naming the string; any other
/// string, and every null, boolean and number, is kept as it is.
pub proof fn law_substitute_scalars(t: Seq<char>, names: Seq<Seq<char>>, entities: Seq<Entity>, unknown: Seq<char>, i: int)
    ensures
        (t.len() > 0 && t[0] == '$' && 0 <= i < names.len() && i < entities.len() && names[i] == t.subrange(1, t.len() as int)
            && forall|k: int| 0 <= k < i ==> names[k] != t.subrange(1, t.len() as int)) ==> substitute(
            Json::Str(t),
            names,
            entities,
            unknown,
        ) == Ok::<Json, Seq<char>>(
            Json::Object(
                seq![
                    ("index"@, Json::Number(JsonNumber::PosInt(entities[i].index as u64))),
                    ("generation"@, Json::Number(JsonNumber::PosInt(entities[i].generation as u64))),
                ],
            ),
        ),
        (t.len() > 0 && t[0] == '$' && forall|k: int| 0 <= k < names.len() ==> names[k] != t.subrange(1, t.len() as int))
            ==> substitute(Json::Str(t), names, entities, unknown) == Err::<Json, Seq<char>>(unknown + debug_quoted(t)),
        !(t.len() > 0 && t[0] == '$') ==> substitute(Json::Str(t), names, entities, unknown) == Ok::<Json, Seq<char>>(
            Json::Str(t),
        ),
        substitute(Json::Null, names, entities, unknown) == Ok::<Json, Seq<char>>(Json::Null),
        forall|b: bool| substitute(Json::Bool(b), names, entities, unknown) == Ok::<Json, Seq<char>>(Json::Bool(b)),
        forall|n: JsonNumber| substitute(Json::Number(n), names, entities, unknown) == Ok::<Json, Seq<char>>(
            Json::Number(n),
        ),
{
    lemma_find_name(names, t.subrange(1, t.len() as int));
}

/// Law: substitution keeps an object's shape. When an object
/// substitutes, the result has the same members with the same keys in the
/// same order, each value being its own substitution.
pub proof fn law_substitute_fields_pointwise(
    fields: Seq<(Seq<char>, Json)>,
    names: Seq<Seq<char>>,
    entities: Seq<Entity>,
    unknown: Seq<char>,
)
    ensures
        substitute_fields(fields, names, entities, unknown) matches Ok(v) ==> {
            &&& v.len() == fields.len()
            &&& forall|k: int| 0 <= k < fields.len() ==> v[k].0 == fields[k].0 && substitute(
                #[trigger] fields[k].1,
                names,
                entities,
                unknown,
            ) == Ok::<Json, Seq<char>>(v[k].1)
        },
    decreases fields.len(),
{
    if fields.len() > 0 {
        let init = fields.drop_last();
        law_substitute_fields_pointwise(init, names, entities, unknown);
        if let Ok(v) = substitute_fields(fields, names, entities, unknown) {
            let prev = substitute_fields(init, names, entities, unknown)->Ok_0;
            assert(v == prev.push(v[v.len() - 1]));
            assert forall|k: int| 0 <= k < fields.len() implies v[k].0 == fields[k].0 && substitute(
                #[trigger] fields[k].1,
                names,
                entities,
                unknown,
            ) == Ok::<Json, Seq<char>>(v[k].1) by {
                if k < init.len() {
                    assert(init[k] == fields[k]);
                    assert(v[k] == prev[k]);
                }
            }
        }
    }
}

} // verus!
