use vstd::prelude::*;

verus! {

/// A JSON number as JSON tooling classifies it: a non-negative integer,
/// a negative integer, or a binary64 floating-point value held by its
/// IEEE-754 bit pattern.
#[derive(PartialEq, Eq, Structural, Debug)]
pub enum JsonNumber {
    PosInt(u64),
    NegInt(i64),
    Float(u64),
}

impl Clone for JsonNumber {
    fn clone(&self) -> (r: Self)
        ensures
            r == *self,
    {
        match self {
            JsonNumber::PosInt(n) => JsonNumber::PosInt(*n),
            JsonNumber::NegInt(n) => JsonNumber::NegInt(*n),
            JsonNumber::Float(n) => JsonNumber::Float(*n),
        }
    }
}

/// A JSON document tree. Object members keep insertion order and never
/// repeat a key.
#[derive(Debug, PartialEq)]
pub enum JsonValue {
    Null,
    Bool(bool),
    Number(JsonNumber),
    String(String),
    Array(Vec<JsonValue>),
    Object(JsonMap),
}

/// JSON object members, in insertion order, with distinct keys.
#[derive(Debug, PartialEq)]
pub struct JsonMap {
    entries: Vec<(String, JsonValue)>,
}

/// Mathematical form of a JSON document.
pub enum Json {
    Null,
    Bool(bool),
    Number(JsonNumber),
    Str(Seq<char>),
    Array(Seq<Json>),
    Object(Seq<(Seq<char>, Json)>),
}

pub open spec fn json_view(v: JsonValue) -> Json
    decreases v,
{
    match v {
        JsonValue::Null => Json::Null,
        JsonValue::Bool(b) => Json::Bool(b),
        JsonValue::Number(n) => Json::Number(n),
        JsonValue::String(s) => Json::Str(s@),
        JsonValue::Array(items) => Json::Array(json_seq_view(items@)),
        JsonValue::Object(m) => Json::Object(m@),
    }
}

pub open spec fn json_seq_view(s: Seq<JsonValue>) -> Seq<Json>
    decreases s,
{
    if s.len() == 0 {
        Seq::empty()
    } else {
        json_seq_view(s.drop_last()).push(json_view(s.last()))
    }
}

impl View for JsonMap {
    type V = Seq<(Seq<char>, Json)>;

    closed spec fn view(&self) -> Seq<(Seq<char>, Json)>
        decreases self,
    {
        json_entries_view(self.entries@)
    }
}

impl View for JsonValue {
    type V = Json;

    open spec fn view(&self) -> Json {
        json_view(*self)
    }
}

pub open spec fn json_entries_view(s: Seq<(String, JsonValue)>) -> Seq<(Seq<char>, Json)>
    decreases s,
{
    if s.len() == 0 {
        Seq::empty()
    } else {
        json_entries_view(s.drop_last()).push((s.last().0@, json_view(s.last().1)))
    }
}

} // verus!

verus! {

/// The value under key `k` in object members `s`, if any.
pub open spec fn entries_get(s: Seq<(Seq<char>, Json)>, k: Seq<char>) -> Option<Json>
    decreases s.len(),
{
    if s.len() == 0 {
        None
    } else if s.last().0 == k {
        Some(s.last().1)
    } else {
        entries_get(s.drop_last(), k)
    }
}

/// No key occurs twice.
pub open spec fn keys_distinct(s: Seq<(Seq<char>, Json)>) -> bool {
    forall|i: int, j: int| 0 <= i < j < s.len() ==> s[i].0 != s[j].0
}

pub proof fn lemma_entries_view_push(s: Seq<(String, JsonValue)>, e: (String, JsonValue))
    ensures
        json_entries_view(s.push(e)) == json_entries_view(s).push((e.0@, json_view(e.1))),
{
    assert(s.push(e).drop_last() =~= s);
}

pub proof fn lemma_seq_view_push(s: Seq<JsonValue>, e: JsonValue)
    ensures
        json_seq_view(s.push(e)) == json_seq_view(s).push(json_view(e)),
{
    assert(s.push(e).drop_last() =~= s);
}

pub proof fn lemma_entries_view_len(s: Seq<(String, JsonValue)>)
    ensures
        json_entries_view(s).len() == s.len(),
        forall|i: int| 0 <= i < s.len() ==> #[trigger] json_entries_view(s)[i] == (s[i].0@, json_view(s[i].1)),
    decreases s.len(),
{
    if s.len() > 0 {
        lemma_entries_view_len(s.drop_last());
        assert forall|i: int| 0 <= i < s.len() implies #[trigger] json_entries_view(s)[i] == (s[i].0@, json_view(s[i].1)) by {
            if i < s.len() - 1 {
                assert(s.drop_last()[i] == s[i]);
            }
        }
    }
}

pub proof fn lemma_seq_view_len(s: Seq<JsonValue>)
    ensures
        json_seq_view(s).len() == s.len(),
        forall|i: int| 0 <= i < s.len() ==> #[trigger] json_seq_view(s)[i] == json_view(s[i]),
    decreases s.len(),
{
    if s.len() > 0 {
        lemma_seq_view_len(s.drop_last());
        assert forall|i: int| 0 <= i < s.len() implies #[trigger] json_seq_view(s)[i] == json_view(s[i]) by {
            if i < s.len() - 1 {
                assert(s.drop_last()[i] == s[i]);
            }
        }
    }
}

pub proof fn lemma_entries_get_index(s: Seq<(Seq<char>, Json)>, k: Seq<char>, i: int)
    requires
        keys_distinct(s),
        0 <= i < s.len(),
        s[i].0 == k,
    ensures
        entries_get(s, k) == Some(s[i].1),
    decreases s.len(),
{
    if i < s.len() - 1 {
        assert(s.drop_last()[i] == s[i]);
        lemma_entries_get_index(s.drop_last(), k, i);
    }
}

pub proof fn lemma_entries_get_absent(s: Seq<(Seq<char>, Json)>, k: Seq<char>)
    requires
        forall|i: int| 0 <= i < s.len() ==> s[i].0 != k,
    ensures
        entries_get(s, k) is None,
    decreases s.len(),
{
    if s.len() > 0 {
        assert forall|i: int| 0 <= i < s.drop_last().len() implies s.drop_last()[i].0 != k by {
            assert(s.drop_last()[i] == s[i]);
        }
        lemma_entries_get_absent(s.drop_last(), k);
    }
}

impl JsonMap {
    /// Keys never repeat.
    #[verifier::type_invariant]
    spec fn inv(self) -> bool {
        keys_distinct(json_entries_view(self.entries@))
    }

    /// An empty object.
    pub fn new() -> (r: Self)
        ensures
            r@ == Seq::<(Seq<char>, Json)>::empty(),
    {
        let r = JsonMap { entries: Vec::new() };
        assert(json_entries_view(r.entries@) =~= Seq::<(Seq<char>, Json)>::empty());
        r
    }

    /// Number of members; member keys are distinct.
    pub fn len(&self) -> (r: usize)
        ensures
            r == self@.len(),
            keys_distinct(self@),
    {
        proof {
            use_type_invariant(self);
            lemma_entries_view_len(self.entries@);
        }
        self.entries.len()
    }

    /// Whether the object has no members.
    pub fn is_empty(&self) -> (r: bool)
        ensures
            r == (self@.len() == 0),
    {
        proof {
            lemma_entries_view_len(self.entries@);
        }
        self.entries.len() == 0
    }

    /// The `i`-th member, in insertion order.
    pub fn entry(&self, i: usize) -> (r: (&String, &JsonValue))
        requires
            i < self@.len(),
        ensures
            r.0@ == self@[i as int].0,
            r.1@ == self@[i as int].1,
    {
        proof {
            lemma_entries_view_len(self.entries@);
        }
        let e = &self.entries[i];
        (&e.0, &e.1)
    }

    fn find(&self, key: &str) -> (r: Option<usize>)
        ensures
            r matches Some(i) ==> i < self@.len() && self@[i as int].0 == key@,
            r is None ==> forall|i: int| 0 <= i < self@.len() ==> self@[i].0 != key@,
    {
        proof {
            lemma_entries_view_len(self.entries@);
        }
        let owned = key.to_owned();
        let mut i: usize = 0;
        while i < self.entries.len()
            invariant
                i <= self.entries@.len(),
                self@.len() == self.entries@.len(),
                owned@ == key@,
                forall|k: int| 0 <= k < self.entries@.len() ==> #[trigger] self@[k] == (
                    self.entries@[k].0@,
                    json_view(self.entries@[k].1),
                ),
                forall|k: int| 0 <= k < i ==> self@[k].0 != key@,
            decreases self.entries@.len() - i,
        {
            if self.entries[i].0 == owned {
                return Some(i);
            }
            i = i + 1;
        }
        None
    }

    /// The value stored under `key`.
    pub fn get(&self, key: &str) -> (r: Option<&JsonValue>)
        ensures
            match entries_get(self@, key@) {
                Some(v) => r matches Some(x) && x@ == v,
                None => r is None,
            },
    {
        proof {
            use_type_invariant(self);
            lemma_entries_view_len(self.entries@);
        }
        match self.find(key) {
            Some(i) => {
                proof {
                    lemma_entries_get_index(self@, key@, i as int);
                }
                Some(&self.entries[i].1)
            }
            None => {
                proof {
                    lemma_entries_get_absent(self@, key@);
                }
                None
            }
        }
    }

    /// Stores `value` under `key`: an existing member keeps its place and
    /// gets the new value, a new key is appended.
    pub fn insert(&mut self, key: String, value: JsonValue)
        ensures
            match entries_get(old(self)@, key@) {
                Some(_) => exists|i: int|
                    0 <= i < old(self)@.len() && old(self)@[i].0 == key@ && final(self)@ == old(self)@.update(
                        i,
                        (key@, value@),
                    ),
                None => final(self)@ == old(self)@.push((key@, value@)),
            },
            (forall|i: int| 0 <= i < old(self)@.len() ==> old(self)@[i].0 != key@) ==> final(self)@
                == old(self)@.push((key@, value@)),
    {
        proof {
            if forall|i: int| 0 <= i < old(self)@.len() ==> old(self)@[i].0 != key@ {
                lemma_entries_get_absent(old(self)@, key@);
            }
            use_type_invariant(&*self);
            lemma_entries_view_len(self.entries@);
        }
        let k = key.as_str();
        match self.find(k) {
            Some(i) => {
                proof {
                    lemma_entries_get_index(self@, key@, i as int);
                }
                let ghost old_entries = self.entries@;
                let mut entries = Vec::new();
                std::mem::swap(&mut entries, &mut self.entries);
                entries.set(i, (key, value));
                proof {
                    lemma_entries_view_len(entries@);
                    assert(json_entries_view(entries@) =~= json_entries_view(old_entries).update(
                        i as int,
                        (key@, value@),
                    ));
                }
                self.entries = entries;
            }
            None => {
                proof {
                    lemma_entries_get_absent(self@, key@);
                }
                let ghost old_entries = self.entries@;
                let mut entries = Vec::new();
                std::mem::swap(&mut entries, &mut self.entries);
                entries.push((key, value));
                proof {
                    lemma_entries_view_push(old_entries, (key, value));
                    lemma_entries_view_len(entries@);
                }
                self.entries = entries;
            }
        }
    }
}

} // verus!

verus! {

/// Deep copy of a JSON value.
pub fn clone_value(v: &JsonValue) -> (r: JsonValue)
    ensures
        r@ == v@,
    decreases v,
{
    match v {
        JsonValue::Null => JsonValue::Null,
        JsonValue::Bool(b) => JsonValue::Bool(*b),
        JsonValue::Number(n) => JsonValue::Number(n.clone()),
        JsonValue::String(s) => JsonValue::String(s.clone()),
        JsonValue::Array(items) => {
            let mut out: Vec<JsonValue> = Vec::new();
            let mut i: usize = 0;
            while i < items.len()
                invariant
                    *v == JsonValue::Array(*items),
                    i <= items@.len(),
                    json_seq_view(out@) == json_seq_view(items@.take(i as int)),
                decreases items@.len() - i,
            {
                assert(decreases_to!(*v => v->Array_0));
                assert(decreases_to!(v->Array_0 => v->Array_0@));
                assert(decreases_to!(v->Array_0@ => items@[i as int]));
                let c = clone_value(&items[i]);
                proof {
                    lemma_seq_view_push(out@, c);
                    lemma_seq_view_push(items@.take(i as int), items@[i as int]);
                    assert(items@.take(i as int).push(items@[i as int]) =~= items@.take(i + 1));
                }
                out.push(c);
                i = i + 1;
            }
            assert(items@.take(items@.len() as int) =~= items@);
            JsonValue::Array(out)
        }
        JsonValue::Object(m) => {
            assert(decreases_to!(v => *m));
            JsonValue::Object(m.clone_map())
        }
    }
}

impl JsonMap {
    /// Deep copy of the object.
    pub fn clone_map(&self) -> (r: JsonMap)
        ensures
            r@ == self@,
        decreases self,
    {
        proof {
            use_type_invariant(self);
            lemma_entries_view_len(self.entries@);
        }
        let mut out: Vec<(String, JsonValue)> = Vec::new();
        let mut i: usize = 0;
        while i < self.entries.len()
            invariant
                i <= self.entries@.len(),
                json_entries_view(out@) == json_entries_view(self.entries@.take(i as int)),
                keys_distinct(json_entries_view(self.entries@)),
                json_entries_view(self.entries@).len() == self.entries@.len(),
                forall|k: int| 0 <= k < self.entries@.len() ==> #[trigger] json_entries_view(self.entries@)[k] == (
                    self.entries@[k].0@,
                    json_view(self.entries@[k].1),
                ),
            decreases self.entries@.len() - i,
        {
            assert(decreases_to!(self => self.entries@[i as int].1));
            let c = clone_value(&self.entries[i].1);
            let k = self.entries[i].0.clone();
            proof {
                lemma_entries_view_push(out@, (k, c));
                lemma_entries_view_push(self.entries@.take(i as int), self.entries@[i as int]);
                assert(self.entries@.take(i as int).push(self.entries@[i as int]) =~= self.entries@.take(i + 1));
            }
            out.push((k, c));
            i = i + 1;
        }
        assert(self.entries@.take(self.entries@.len() as int) =~= self.entries@);
        JsonMap { entries: out }
    }

    /// Removes the member under `key` and returns its value; other members
    /// keep their order.
    pub fn remove(&mut self, key: &str) -> (r: Option<JsonValue>)
        ensures
            match entries_get(old(self)@, key@) {
                Some(v) => r matches Some(x) && x@ == v && exists|i: int|
                    0 <= i < old(self)@.len() && old(self)@[i].0 == key@ && final(self)@ == old(self)@.remove(i),
                None => r is None && final(self)@ == old(self)@,
            },
            keys_distinct(old(self)@),
    {
        proof {
            use_type_invariant(&*self);
            lemma_entries_view_len(self.entries@);
        }
        match self.find(key) {
            Some(i) => {
                proof {
                    lemma_entries_get_index(self@, key@, i as int);
                }
                let ghost old_entries = self.entries@;
                let mut entries = Vec::new();
                std::mem::swap(&mut entries, &mut self.entries);
                let (_, v) = entries.remove(i);
                proof {
                    lemma_entries_view_len(entries@);
                    lemma_entries_view_len(old_entries);
                    assert(json_entries_view(entries@) =~= json_entries_view(old_entries).remove(i as int));
                }
                self.entries = entries;
                Some(v)
            }
            None => {
                proof {
                    lemma_entries_get_absent(self@, key@);
                }
                None
            }
        }
    }
}

impl JsonValue {
    /// A JSON number holding a `u32`.
    pub fn from_u32(n: u32) -> (r: JsonValue)
        ensures
            r@ == Json::Number(JsonNumber::PosInt(n as u64)),
    {
        JsonValue::Number(JsonNumber::PosInt(n as u64))
    }

    /// A JSON string.
    pub fn from_str(s: &str) -> (r: JsonValue)
        ensures
            r@ == Json::Str(s@),
    {
        JsonValue::String(s.to_owned())
    }
}

} // verus!

verus! {

/// Law: a read gives back the last write. After `JsonMap::insert` of
/// `value` under `key` (a member in place, or a new member at the end, as
/// its contract says), `get` of `key` returns `value`.
pub proof fn law_insert_then_get(before: Seq<(Seq<char>, Json)>, key: Seq<char>, value: Json, after: Seq<(Seq<char>, Json)>)
    requires
        keys_distinct(before),
        match entries_get(before, key) {
            Some(_) => exists|i: int| 0 <= i < before.len() && before[i].0 == key && after == before.update(i, (key, value)),
            None => after == before.push((key, value)),
        },
    ensures
        entries_get(after, key) == Some(value),
{
    match entries_get(before, key) {
        Some(_) => {
            let i = choose|i: int| 0 <= i < before.len() && before[i].0 == key && after == before.update(i, (key, value));
            assert(keys_distinct(after)) by {
                assert forall|a: int, b: int| 0 <= a < b < after.len() implies after[a].0 != after[b].0 by {
                    assert(after[a].0 == before[a].0);
                    assert(after[b].0 == before[b].0);
                }
            }
            lemma_entries_get_index(after, key, i);
        },
        None => {},
    }
}

} // verus!
