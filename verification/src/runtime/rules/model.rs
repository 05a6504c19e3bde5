use vstd::prelude::*;

use crate::json::JsonValue;
use crate::math::Vec2;
use crate::tag::id::TagId;

verus! {

/// Stable identifier of a loaded rule: its file's stem.
#[derive(Debug)]
pub struct RuleId(pub String);

/// Index into a rule's match parameters.
#[derive(PartialEq, Eq, Structural, Debug)]
pub struct ParamId(pub u8);

impl Clone for ParamId {
    fn clone(&self) -> (r: Self)
        ensures
            r == *self,
    {
        ParamId(self.0)
    }
}

impl Copy for ParamId {}

/// One rule, post-load: tag names resolved to ids, parameter references
/// resolved to indices.
#[derive(Debug)]
pub struct Rule<S> {
    pub id: RuleId,
    /// The event name this rule subscribes to.
    pub event_name: String,
    pub match_spec: MatchSpec,
    pub actions: Vec<Action<S>>,
}

/// Per-event-parameter entity filter.
#[derive(Debug)]
pub struct MatchSpec {
    /// Parameter names; the name is the event payload field holding the
    /// parameter's entity.
    pub params: Vec<String>,
    /// Filter for each parameter, parallel to `params`.
    pub filters: Vec<EntityMatch>,
}

/// Tag filter on a bound entity: it must carry every `required` tag and
/// none of the `forbidden` ones.
#[derive(Debug)]
pub struct EntityMatch {
    pub required: Vec<TagId>,
    pub forbidden: Vec<TagId>,
}

/// One step of a rule, run in declaration order.
#[derive(Debug)]
pub enum Action<S> {
    SetVelocity { target: ParamId, velocity: Vec2<S> },
    ReverseVelocity { target: ParamId, axis: ReverseAxis },
    Spawn { template: String, position: Vec2<S> },
    Despawn { target: ParamId },
    /// Emits a domain event; `"$name"` strings in the payload are replaced
    /// by the bound entities.
    Emit { event: String, payload: JsonValue },
    PlayAnimation { target: ParamId, clip: String, priority: u8 },
}

/// Which velocity components to flip. `Both` is the default because it
/// always succeeds; `FromNormal` needs a `normal` in the triggering event.
#[derive(PartialEq, Eq, Structural, Debug)]
pub enum ReverseAxis {
    X,
    Y,
    Both,
    FromNormal,
}

impl Clone for ReverseAxis {
    fn clone(&self) -> (r: Self)
        ensures
            r == *self,
    {
        *self
    }
}

impl Copy for ReverseAxis {}

/// The default axis choice is `Both`.
impl Default for ReverseAxis {
    fn default() -> (r: Self)
        ensures
            r == ReverseAxis::Both,
    {
        ReverseAxis::Both
    }
}

impl MatchSpec {
    /// No parameters.
    pub fn empty() -> (r: Self)
        ensures
            r.params@.len() == 0,
            r.filters@.len() == 0,
    {
        MatchSpec { params: Vec::new(), filters: Vec::new() }
    }
}

impl EntityMatch {
    /// No constraints.
    pub fn any() -> (r: Self)
        ensures
            r.required@.len() == 0,
            r.forbidden@.len() == 0,
    {
        EntityMatch { required: Vec::new(), forbidden: Vec::new() }
    }
}

/// All loaded rules, grouped by event name. Rules sharing an event name
/// keep insertion order.
pub struct RuleSet<S> {
    groups: Vec<(String, Vec<Rule<S>>)>,
    total: usize,
    none: Vec<Rule<S>>,
}

/// The rules of the group named `name`, if any.
pub open spec fn group_rules<S>(groups: Seq<(String, Vec<Rule<S>>)>, name: Seq<char>) -> Seq<Rule<S>>
    decreases groups.len(),
{
    if groups.len() == 0 {
        Seq::empty()
    } else if groups.last().0@ == name {
        groups.last().1@
    } else {
        group_rules(groups.drop_last(), name)
    }
}

/// Total number of rules over all groups.
pub open spec fn group_total<S>(groups: Seq<(String, Vec<Rule<S>>)>) -> nat
    decreases groups.len(),
{
    if groups.len() == 0 {
        0
    } else {
        group_total(groups.drop_last()) + groups.last().1@.len()
    }
}

proof fn lemma_group_rules_at<S>(groups: Seq<(String, Vec<Rule<S>>)>, i: int, name: Seq<char>)
    requires
        0 <= i < groups.len(),
        groups[i].0@ == name,
        forall|a: int, b: int| 0 <= a < b < groups.len() ==> groups[a].0@ != groups[b].0@,
    ensures
        group_rules(groups, name) == groups[i].1@,
    decreases groups.len(),
{
    if i < groups.len() - 1 {
        assert(groups.drop_last()[i] == groups[i]);
        lemma_group_rules_at(groups.drop_last(), i, name);
    }
}

proof fn lemma_group_rules_absent<S>(groups: Seq<(String, Vec<Rule<S>>)>, name: Seq<char>)
    requires
        forall|a: int| 0 <= a < groups.len() ==> groups[a].0@ != name,
    ensures
        group_rules(groups, name) == Seq::<Rule<S>>::empty(),
    decreases groups.len(),
{
    if groups.len() > 0 {
        assert forall|a: int| 0 <= a < groups.drop_last().len() implies groups.drop_last()[a].0@ != name by {
            assert(groups.drop_last()[a] == groups[a]);
        }
        lemma_group_rules_absent(groups.drop_last(), name);
    }
}

proof fn lemma_group_update<S>(groups: Seq<(String, Vec<Rule<S>>)>, i: int, g: (String, Vec<Rule<S>>))
    requires
        0 <= i < groups.len(),
        groups[i].0@ == g.0@,
    ensures
        group_total(groups.update(i, g)) == group_total(groups) - groups[i].1@.len() + g.1@.len(),
        forall|n: Seq<char>| n != g.0@ ==> group_rules(groups.update(i, g), n) == group_rules(groups, n),
    decreases groups.len(),
{
    let updated = groups.update(i, g);
    if i < groups.len() - 1 {
        lemma_group_update(groups.drop_last(), i, g);
        assert(updated.drop_last() =~= groups.drop_last().update(i, g));
        assert(updated.last() == groups.last());
        assert forall|n: Seq<char>| n != g.0@ implies group_rules(updated, n) == group_rules(groups, n) by {
            assert(group_rules(groups.drop_last().update(i, g), n) == group_rules(groups.drop_last(), n));
        }
    } else {
        assert(updated.drop_last() =~= groups.drop_last());
        assert(updated.last() == g);
        assert forall|n: Seq<char>| n != g.0@ implies group_rules(updated, n) == group_rules(groups, n) by {
        }
    }
}

impl<S> RuleSet<S> {
    /// Well-formedness: group names are distinct, the count is exact and
    /// the empty answer is empty.
    pub closed spec fn wf(&self) -> bool {
        &&& forall|a: int, b: int| 0 <= a < b < self.groups@.len() ==> self.groups@[a].0@ != self.groups@[b].0@
        &&& self.total == group_total(self.groups@)
        &&& self.none@.len() == 0
    }

    /// The rules subscribed to event `name`, in insertion order.
    pub closed spec fn rules_for_spec(&self, name: Seq<char>) -> Seq<Rule<S>> {
        group_rules(self.groups@, name)
    }

    /// Total number of rules.
    pub closed spec fn total(&self) -> nat {
        self.total as nat
    }

    /// An empty rule set.
    pub fn new() -> (r: Self)
        ensures
            r.wf(),
            r.total() == 0,
            forall|n: Seq<char>| r.rules_for_spec(n) == Seq::<Rule<S>>::empty(),
    {
        RuleSet { groups: Vec::new(), total: 0, none: Vec::new() }
    }

    /// Appends a rule after the rules already subscribed to its event.
    pub fn add(&mut self, rule: Rule<S>)
        requires
            old(self).wf(),
            old(self).total() < usize::MAX,
        ensures
            final(self).wf(),
            final(self).total() == old(self).total() + 1,
            final(self).rules_for_spec(rule.event_name@) == old(self).rules_for_spec(rule.event_name@).push(rule),
            forall|n: Seq<char>| n != rule.event_name@ ==> final(self).rules_for_spec(n) == old(self).rules_for_spec(n),
    {
        let ghost name = rule.event_name@;
        let mut i: usize = 0;
        while i < self.groups.len() && !(self.groups[i].0 == rule.event_name)
            invariant
                old(self).wf(),
                self.groups@ == old(self).groups@,
                i <= self.groups@.len(),
                forall|k: int| 0 <= k < i ==> self.groups@[k].0@ != name,
                name == rule.event_name@,
            decreases self.groups@.len() - i,
        {
            i = i + 1;
        }
        if i < self.groups.len() {
            proof {
                lemma_group_rules_at(self.groups@, i as int, name);
            }
            let ghost old_groups = self.groups@;
            let mut groups = Vec::new();
            std::mem::swap(&mut groups, &mut self.groups);
            let (key, mut rules) = groups.remove(i);
            rules.push(rule);
            groups.insert(i, (key, rules));
            proof {
                let g = groups@[i as int];
                assert(groups@ =~= old_groups.update(i as int, g));
                lemma_group_update(old_groups, i as int, g);
                lemma_group_rules_at(groups@, i as int, name);
            }
            self.groups = groups;
        } else {
            proof {
                lemma_group_rules_absent(self.groups@, name);
            }
            let ghost old_groups = self.groups@;
            let key = rule.event_name.clone();
            let mut rules = Vec::new();
            rules.push(rule);
            self.groups.push((key, rules));
            proof {
                assert(self.groups@.drop_last() =~= old_groups);
                assert forall|n: Seq<char>| n != name implies group_rules(self.groups@, n) == group_rules(old_groups, n) by {
                }
            }
        }
        self.total = self.total + 1;
    }

    /// The rules subscribed to event `event_name`, in insertion order.
    pub fn rules_for(&self, event_name: &str) -> (r: &Vec<Rule<S>>)
        requires
            self.wf(),
        ensures
            r@ == self.rules_for_spec(event_name@),
    {
        let owned = event_name.to_owned();
        let mut i: usize = 0;
        while i < self.groups.len()
            invariant
                self.wf(),
                i <= self.groups@.len(),
                forall|k: int| 0 <= k < i ==> self.groups@[k].0@ != event_name@,
                owned@ == event_name@,
            decreases self.groups@.len() - i,
        {
            if self.groups[i].0 == owned {
                proof {
                    lemma_group_rules_at(self.groups@, i as int, event_name@);
                }
                return &self.groups[i].1;
            }
            i = i + 1;
        }
        proof {
            lemma_group_rules_absent(self.groups@, event_name@);
        }
        &self.none
    }

    /// Total number of rules.
    pub fn len(&self) -> (r: usize)
        ensures
            r == self.total(),
    {
        self.total
    }

    /// Whether there are no rules.
    pub fn is_empty(&self) -> (r: bool)
        ensures
            r == (self.total() == 0),
    {
        self.total == 0
    }

    /// Every rule with its event name, grouped by event name in order of
    /// first subscription, insertion order within a group.
    pub fn iter(&self) -> (r: Vec<(&String, &Rule<S>)>)
        requires
            self.wf(),
        ensures
            r@.len() == self.total(),
            forall|k: int| 0 <= k < r@.len() ==> self.rules_for_spec(r@[k].0@).contains(*r@[k].1),
    {
        let mut out: Vec<(&String, &Rule<S>)> = Vec::new();
        let mut i: usize = 0;
        while i < self.groups.len()
            invariant
                self.wf(),
                i <= self.groups@.len(),
                out@.len() == group_total(self.groups@.take(i as int)),
                forall|k: int| 0 <= k < out@.len() ==> group_rules(self.groups@, out@[k].0@).contains(*out@[k].1),
            decreases self.groups@.len() - i,
        {
            let key = &self.groups[i].0;
            let rules = &self.groups[i].1;
            proof {
                lemma_group_rules_at(self.groups@, i as int, key@);
            }
            let mut j: usize = 0;
            let ghost base = out@.len();
            while j < rules.len()
                invariant
                    self.wf(),
                    j <= rules@.len(),
                    out@.len() == base + j,
                    group_rules(self.groups@, key@) == rules@,
                    forall|k: int| 0 <= k < out@.len() ==> group_rules(self.groups@, out@[k].0@).contains(*out@[k].1),
                decreases rules@.len() - j,
            {
                out.push((key, &rules[j]));
                assert(rules@.contains(rules@[j as int]));
                j = j + 1;
            }
            assert(self.groups@.take(i + 1).drop_last() =~= self.groups@.take(i as int));
            i = i + 1;
        }
        assert(self.groups@.take(self.groups@.len() as int) =~= self.groups@);
        out
    }
}

} // verus!
