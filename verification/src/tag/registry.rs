use vstd::prelude::*;

use crate::ecs::error::CoreError;
use crate::tag::id::{TagId, MAX_TAGS};

verus! {

/// World-scoped intern table for tag names. Ids are handed out densely
/// from zero in first-intern order, and the same name always maps to the
/// same id.
pub struct TagRegistry {
    by_id: Vec<String>,
}

impl View for TagRegistry {
    /// The interned names, indexed by tag id.
    type V = Seq<Seq<char>>;

    closed spec fn view(&self) -> Seq<Seq<char>> {
        self.by_id@.map_values(|s: String| s@)
    }
}

/// No name occurs twice.
pub open spec fn names_distinct(names: Seq<Seq<char>>) -> bool {
    forall|i: int, j: int| 0 <= i < names.len() && 0 <= j < names.len() && i != j ==> names[i] != names[j]
}

/// Index of `name` among `names`, if interned.
pub open spec fn index_of_name(names: Seq<Seq<char>>, name: Seq<char>) -> Option<int> {
    if exists|i: int| 0 <= i < names.len() && names[i] == name {
        Some(choose|i: int| 0 <= i < names.len() && names[i] == name)
    } else {
        None
    }
}

/// Interning `name` into a registry holding `names`: a name already
/// interned keeps its id and the names stay; a new name gets the next
/// dense id and is appended, unless `MAX_TAGS` names are interned, in which
/// case the names stay and the error carries their count.
pub open spec fn intern_step(names: Seq<Seq<char>>, name: Seq<char>) -> (Seq<Seq<char>>, Result<TagId, CoreError>) {
    match index_of_name(names, name) {
        Some(i) => (names, Ok(TagId(i as u16))),
        None => if names.len() >= MAX_TAGS {
            (names, Err(CoreError::TagsFull(names.len() as usize)))
        } else {
            (names.push(name), Ok(TagId(names.len() as u16)))
        },
    }
}

impl TagRegistry {
    /// Well-formedness: names are distinct and there are at most
    /// `MAX_TAGS` of them.
    pub open spec fn wf(&self) -> bool {
        &&& names_distinct(self@)
        &&& self@.len() <= MAX_TAGS
    }

    /// An empty registry.
    pub fn new() -> (r: Self)
        ensures
            r.wf(),
            r@ == Seq::<Seq<char>>::empty(),
    {
        let r = TagRegistry { by_id: Vec::new() };
        assert(r@ =~= Seq::<Seq<char>>::empty());
        r
    }

    fn find(&self, name: &String) -> (r: Option<usize>)
        ensures
            r matches Some(i) ==> i < self@.len() && self@[i as int] == name@,
            r is None ==> forall|i: int| 0 <= i < self@.len() ==> self@[i] != name@,
    {
        let mut i: usize = 0;
        while i < self.by_id.len()
            invariant
                i <= self.by_id@.len(),
                self@.len() == self.by_id@.len(),
                forall|k: int| 0 <= k < i ==> self@[k] != name@,
            decreases self.by_id@.len() - i,
        {
            if self.by_id[i] == *name {
                return Some(i);
            }
            i = i + 1;
        }
        None
    }

    /// Get-or-insert. A name already interned gets its existing id back;
    /// a new name gets the next dense id, unless `MAX_TAGS` names are
    /// already interned, in which case the registry is unchanged and
    /// `CoreError::TagsFull` carries the current count.
    pub fn intern(&mut self, name: &str) -> (r: Result<TagId, CoreError>)
        requires
            old(self).wf(),
        ensures
            final(self).wf(),
            (final(self)@, r) == intern_step(old(self)@, name@),
    {
        let owned = name.to_owned();
        match self.find(&owned) {
            Some(i) => {
                proof {
                    assert(exists|j: int| 0 <= j < old(self)@.len() && old(self)@[j] == name@);
                    let j = choose|j: int| 0 <= j < old(self)@.len() && old(self)@[j] == name@;
                    assert(j == i);
                }
                Ok(TagId(i as u16))
            }
            None => {
                if self.is_full() {
                    return Err(CoreError::TagsFull(self.by_id.len()));
                }
                let id = self.by_id.len() as u16;
                self.by_id.push(owned);
                assert(self@ =~= old(self)@.push(name@));
                Ok(TagId(id))
            }
        }
    }

    /// The id of an already interned name.
    pub fn lookup(&self, name: &str) -> (r: Option<TagId>)
        requires
            self.wf(),
        ensures
            match index_of_name(self@, name@) {
                Some(i) => r == Some(TagId(i as u16)),
                None => r is None,
            },
    {
        let owned = name.to_owned();
        match self.find(&owned) {
            Some(i) => {
                proof {
                    let j = choose|j: int| 0 <= j < self@.len() && self@[j] == name@;
                    assert(j == i);
                }
                Some(TagId(i as u16))
            }
            None => None,
        }
    }

    /// The name interned under `id`.
    pub fn name(&self, id: TagId) -> (r: Option<&str>)
        ensures
            r is Some <==> (id.0 as int) < self@.len(),
            r matches Some(s) ==> s@ == self@[id.0 as int],
    {
        let i = id.0 as usize;
        if i < self.by_id.len() {
            Some(self.by_id[i].as_str())
        } else {
            None
        }
    }

    /// Current number of distinct interned tags.
    pub fn len(&self) -> (r: usize)
        ensures
            r == self@.len(),
    {
        self.by_id.len()
    }

    /// Whether no tag has been interned.
    pub fn is_empty(&self) -> (r: bool)
        ensures
            r == (self@.len() == 0),
    {
        self.by_id.len() == 0
    }

    /// `true` once `intern` would refuse a new name.
    pub fn is_full(&self) -> (r: bool)
        ensures
            r == (self@.len() >= MAX_TAGS),
    {
        self.by_id.len() >= MAX_TAGS
    }
}

/// Law: interning is stable. Interning a name a second time returns the
/// id of the first time and leaves the names as the first time left them.
pub proof fn law_intern_is_stable(names: Seq<Seq<char>>, name: Seq<char>)
    requires
        names_distinct(names),
        intern_step(names, name).1 is Ok,
    ensures
        intern_step(intern_step(names, name).0, name) == intern_step(names, name),
{
    let (n1, r1) = intern_step(names, name);
    if index_of_name(names, name) is None {
        assert(n1[names.len() as int] == name);
        assert forall|i: int| 0 <= i < n1.len() && n1[i] == name implies i == names.len() by {
            if i < names.len() {
                assert(names[i] == name);
            }
        }
    }
}

/// Law: what interning writes, `name` and `lookup` read back. After a
/// successful intern the id names `name`, and looking `name` up gives the
/// id; names interned before keep their ids.
pub proof fn law_intern_then_read(names: Seq<Seq<char>>, name: Seq<char>)
    requires
        names_distinct(names),
        names.len() <= MAX_TAGS,
        intern_step(names, name).1 is Ok,
    ensures
        ({
            let (n1, r1) = intern_step(names, name);
            let id = r1->Ok_0;
            &&& (id.0 as int) < n1.len()
            &&& n1[id.0 as int] == name
            &&& index_of_name(n1, name) == Some(id.0 as int)
            &&& names.len() <= n1.len()
            &&& forall|i: int| 0 <= i < names.len() ==> n1[i] == names[i]
        }),
{
    let (n1, r1) = intern_step(names, name);
    match index_of_name(names, name) {
        Some(i) => {
            assert(names[i] == name);
            assert((i as u16) as int == i);
        },
        None => {
            assert(n1[names.len() as int] == name);
            assert forall|i: int| 0 <= i < n1.len() && n1[i] == name implies i == names.len() by {
                if i < names.len() {
                    assert(names[i] == name);
                }
            }
        },
    }
}

/// A run of successive `intern` calls, one per name of `list` in order,
/// on a registry holding `names`: the names afterwards and each call's
/// result.
pub open spec fn intern_each(names: Seq<Seq<char>>, list: Seq<Seq<char>>) -> (
    Seq<Seq<char>>,
    Seq<Result<TagId, CoreError>>,
)
    decreases list.len(),
{
    if list.len() == 0 {
        (names, Seq::empty())
    } else {
        let (n1, rs) = intern_each(names, list.drop_last());
        let (n2, r) = intern_step(n1, list.last());
        (n2, rs.push(r))
    }
}

/// With distinct names, the index of a name is where it stands.
proof fn lemma_index_of_name_at(names: Seq<Seq<char>>, name: Seq<char>, i: int)
    requires
        names_distinct(names),
        0 <= i < names.len(),
        names[i] == name,
    ensures
        index_of_name(names, name) == Some(i),
{
    assert(names[i] == name);
}

/// Interning a name leaves the names distinct and within the cap, and
/// leaves the index of every other name as it was.
proof fn lemma_intern_step_frame(names: Seq<Seq<char>>, name: Seq<char>)
    requires
        names_distinct(names),
        names.len() <= MAX_TAGS,
    ensures
        names_distinct(intern_step(names, name).0),
        intern_step(names, name).0.len() <= MAX_TAGS,
        forall|other: Seq<char>| other != name ==> index_of_name(intern_step(names, name).0, other)
            == index_of_name(names, other),
{
    let n1 = intern_step(names, name).0;
    if index_of_name(names, name) is None && names.len() < MAX_TAGS {
        assert(n1 == names.push(name));
        assert forall|i: int, j: int| 0 <= i < n1.len() && 0 <= j < n1.len() && i != j implies n1[i] != n1[j] by {
            if i == names.len() as int {
                assert(names[j] != name);
            } else if j == names.len() as int {
                assert(names[i] != name);
            }
        }
        assert forall|other: Seq<char>| other != name implies index_of_name(n1, other) == index_of_name(names, other) by {
            match index_of_name(names, other) {
                Some(i) => {
                    assert(names[i] == other);
                    lemma_index_of_name_at(n1, other, i);
                },
                None => {
                    assert forall|i: int| 0 <= i < n1.len() implies n1[i] != other by {
                        if i < names.len() {
                            assert(names[i] != other);
                        }
                    }
                },
            }
        }
    }
}

/// Law: `lookup` answers from the history of `intern` calls. On a
/// registry that starts empty, after any run of `intern` calls, looking
/// a name up gives `id` exactly when one of those calls on that name
/// returned `Ok(id)`; a name never interned, or whose every intern
/// failed, is not found. The names stay distinct and within the cap.
pub proof fn law_lookup_follows_interns(list: Seq<Seq<char>>)
    ensures
        ({
            let (n, rs) = intern_each(Seq::empty(), list);
            &&& names_distinct(n)
            &&& n.len() <= MAX_TAGS
            &&& rs.len() == list.len()
            &&& forall|name: Seq<char>, t: TagId| index_of_name(n, name) == Some(t.0 as int) <==> exists|k: int|
                0 <= k < list.len() && list[k] == name && rs[k] == Ok::<TagId, CoreError>(t)
            &&& forall|name: Seq<char>| index_of_name(n, name) is None <==> forall|k: int|
                0 <= k < list.len() && list[k] == name ==> rs[k] is Err
        }),
    decreases list.len(),
{
    if list.len() > 0 {
        let prev = list.drop_last();
        let x = list.last();
        law_lookup_follows_interns(prev);
        let (n1, rs1) = intern_each(Seq::empty(), prev);
        let (n2, r) = intern_step(n1, x);
        let (n, rs) = intern_each(Seq::empty(), list);
        assert(n == n2 && rs == rs1.push(r));
        lemma_intern_step_frame(n1, x);
        if r is Ok {
            law_intern_then_read(n1, x);
        }
        assert forall|name: Seq<char>, t: TagId| index_of_name(n, name) == Some(t.0 as int) <==> exists|k: int|
            0 <= k < list.len() && list[k] == name && rs[k] == Ok::<TagId, CoreError>(t) by {
            if name != x {
                if exists|k: int| 0 <= k < list.len() && list[k] == name && rs[k] == Ok::<TagId, CoreError>(t) {
                    let k = choose|k: int| 0 <= k < list.len() && list[k] == name && rs[k] == Ok::<TagId, CoreError>(t);
                    assert(k < prev.len());
                    assert(prev[k] == name && rs1[k] == rs[k]);
                }
                if index_of_name(n1, name) == Some(t.0 as int) {
                    let k = choose|k: int| 0 <= k < prev.len() && prev[k] == name && rs1[k] == Ok::<TagId, CoreError>(t);
                    assert(list[k] == name && rs[k] == rs1[k]);
                }
            } else {
                let last = list.len() - 1;
                assert(list[last] == x && rs[last] == r);
                match index_of_name(n1, x) {
                    Some(i) => {
                        assert(r == Ok::<TagId, CoreError>(TagId(i as u16)));
                        assert(n1[i] == x);
                        assert((i as u16) as int == i);
                        if exists|k: int| 0 <= k < list.len() && list[k] == name && rs[k] == Ok::<TagId, CoreError>(t) {
                            let k = choose|k: int| 0 <= k < list.len() && list[k] == name && rs[k] == Ok::<TagId, CoreError>(t);
                            if k < prev.len() {
                                assert(prev[k] == name && rs1[k] == rs[k]);
                                assert(index_of_name(n1, name) == Some(t.0 as int));
                            }
                        }
                    },
                    None => {
                        if r is Ok {
                            assert(n2[n1.len() as int] == x);
                            assert((n1.len() as u16) as int == n1.len());
                            if exists|k: int| 0 <= k < list.len() && list[k] == name && rs[k] == Ok::<TagId, CoreError>(t) {
                                let k = choose|k: int| 0 <= k < list.len() && list[k] == name && rs[k] == Ok::<TagId, CoreError>(t);
                                if k < prev.len() {
                                    assert(prev[k] == name && rs1[k] == rs[k]);
                                    assert(index_of_name(n1, name) == Some(t.0 as int));
                                }
                            }
                        } else {
                            assert(n2 == n1);
                            if exists|k: int| 0 <= k < list.len() && list[k] == name && rs[k] == Ok::<TagId, CoreError>(t) {
                                let k = choose|k: int| 0 <= k < list.len() && list[k] == name && rs[k] == Ok::<TagId, CoreError>(t);
                                if k < prev.len() {
                                    assert(prev[k] == name && rs1[k] == rs[k]);
                                    assert(index_of_name(n1, name) == Some(t.0 as int));
                                }
                            }
                        }
                    },
                }
            }
        }
        assert forall|name: Seq<char>| index_of_name(n, name) is None <==> forall|k: int|
            0 <= k < list.len() && list[k] == name ==> rs[k] is Err by {
            if name != x {
                if index_of_name(n, name) is None {
                    assert forall|k: int| 0 <= k < list.len() && list[k] == name implies rs[k] is Err by {
                        assert(list[list.len() - 1] == x);
                        assert(k < prev.len());
                        assert(prev[k] == name && rs1[k] == rs[k]);
                    }
                } else {
                    assert(index_of_name(n1, name) is Some);
                    assert(!(forall|k: int| 0 <= k < prev.len() && prev[k] == name ==> rs1[k] is Err));
                    let j = choose|j: int| 0 <= j < prev.len() && prev[j] == name && !(rs1[j] is Err);
                    assert(list[j] == name && rs[j] == rs1[j]);
                }
            } else {
                let last = list.len() - 1;
                assert(list[last] == x && rs[last] == r);
                if index_of_name(n, x) is None {
                    assert(index_of_name(n1, x) is None);
                    assert(r is Err);
                    assert forall|k: int| 0 <= k < list.len() && list[k] == name implies rs[k] is Err by {
                        if k < prev.len() {
                            assert(prev[k] == name && rs1[k] == rs[k]);
                        }
                    }
                } else {
                    if index_of_name(n1, x) is None {
                        assert(r is Ok);
                    } else {
                        assert(r is Ok);
                    }
                }
            }
        }
    } else {
        assert forall|name: Seq<char>| index_of_name(Seq::<Seq<char>>::empty(), name) is None by {}
    }
}

/// Law: over any run of `intern` calls on a registry that starts empty, a
/// name keeps the id its first successful intern gave: every later
/// successful intern of it returns that id again. The id that `lookup`
/// gives for a name is where `name` finds that name.
pub proof fn law_intern_history_keeps_ids(list: Seq<Seq<char>>)
    ensures
        ({
            let (n, rs) = intern_each(Seq::empty(), list);
            &&& forall|k: int, l: int|
                0 <= k < l < list.len() && list[k] == list[l] && rs[k] is Ok ==> #[trigger] rs[l] == #[trigger] rs[k]
            &&& forall|name: Seq<char>, t: TagId| index_of_name(n, name) == Some(t.0 as int) ==> (t.0 as int) < n.len()
                && n[t.0 as int] == name
        }),
    decreases list.len(),
{
    let (n, rs) = intern_each(Seq::empty(), list);
    if list.len() > 0 {
        let prev = list.drop_last();
        let x = list.last();
        law_intern_history_keeps_ids(prev);
        law_lookup_follows_interns(prev);
        let (n1, rs1) = intern_each(Seq::empty(), prev);
        let r = intern_step(n1, x).1;
        assert(rs == rs1.push(r));
        let last = list.len() - 1;
        assert forall|k: int, l: int|
            0 <= k < l < list.len() && list[k] == list[l] && rs[k] is Ok implies #[trigger] rs[l] == #[trigger] rs[k] by {
            assert(rs[k] == rs1[k] && list[k] == prev[k]);
            if l < last {
                assert(rs[l] == rs1[l] && list[l] == prev[l]);
            } else {
                assert(list[l] == x && rs[l] == r);
                let t = rs1[k]->Ok_0;
                assert(rs1[k] == Ok::<TagId, CoreError>(t));
                assert(index_of_name(n1, x) == Some(t.0 as int));
                assert(((t.0 as int) as u16) == t.0);
            }
        }
    }
    assert forall|name: Seq<char>, t: TagId| index_of_name(n, name) == Some(t.0 as int) implies (t.0 as int) < n.len()
        && n[t.0 as int] == name by {
    }
}

} // verus!
