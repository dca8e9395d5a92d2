use vstd::prelude::*;

use crate::policy::constraint::{ConstraintPredicate, PredicateView, Property};
use crate::policy::value::{value_eq, value_is_numeric, PolicyValue, ValueView};

verus! {

/// How the selected number compares with a predicate's bound, both taken as doubles.
#[derive(Clone, Copy, Debug, PartialEq, Eq, Structural)]
pub enum NumericOrder {
    Less,
    Equal,
    Greater,
    Unordered,
}

/// Whether a predicate holds of the selected value. For bounds, `order` is how the selected
/// number compares with the bound as doubles.
/// Some candidate equals `v`.
pub open spec fn value_in(v: ValueView, candidates: Seq<ValueView>) -> bool {
    exists|i: int| 0 <= i < candidates.len() && value_eq(v, #[trigger] candidates[i])
}

pub open spec fn predicate_holds(p: PredicateView, selected: Option<ValueView>, order: NumericOrder) -> bool {
    match selected {
        None => false,
        Some(v) => match p {
            PredicateView::Equals(expected) => value_eq(v, expected),
            PredicateView::NotEquals(forbidden) => !value_eq(v, forbidden),
            PredicateView::OneOf(candidates) => value_in(v, candidates),
            PredicateView::AtLeast(minimum) => value_is_numeric(v) && value_is_numeric(minimum) && (
            order == NumericOrder::Greater || order == NumericOrder::Equal),
            PredicateView::AtMost(maximum) => value_is_numeric(v) && value_is_numeric(maximum) && (
            order == NumericOrder::Less || order == NumericOrder::Equal),
            PredicateView::Present => true,
        },
    }
}

pub open spec fn opt_value_view(v: Option<&PolicyValue>) -> Option<ValueView> {
    match v {
        Some(x) => Some(x@),
        None => None,
    }
}

/// Whether `predicate` holds of `selected`; `order` is how the selected number compares with
/// the bound as doubles, and is read only for `AtLeast` and `AtMost`.
pub fn predicate_matches(
    predicate: &ConstraintPredicate,
    selected: Option<&PolicyValue>,
    order: NumericOrder,
) -> (r: bool)
    ensures
        r == predicate_holds(predicate@, opt_value_view(selected), order),
{
    match predicate {
        ConstraintPredicate::Equals(expected) => match selected {
            Some(v) => v.equals(expected),
            None => false,
        },
        ConstraintPredicate::NotEquals(forbidden) => match selected {
            Some(v) => !v.equals(forbidden),
            None => false,
        },
        ConstraintPredicate::OneOf(candidates) => match selected {
            Some(v) => {
                let ghost views = candidates@.map_values(|c: PolicyValue| c@);
                let mut i: usize = 0;
                while i < candidates.len()
                    invariant
                        0 <= i <= candidates@.len(),
                        views == candidates@.map_values(|c: PolicyValue| c@),
                        predicate@ == PredicateView::OneOf(views),
                        selected == Some(v),
                        forall|k: int| 0 <= k < i ==> !value_eq(v@, #[trigger] views[k]),
                    decreases candidates@.len() - i,
                {
                    if v.equals(&candidates[i]) {
                        proof {
                            assert(views.len() == candidates@.len());
                            assert(value_eq(v@, views[i as int]));
                            assert(opt_value_view(selected) == Some(v@));
                        }
                        return true;
                    }
                    i = i + 1;
                }
                false
            },
            None => false,
        },
        ConstraintPredicate::AtLeast(minimum) => match selected {
            Some(v) => v.is_numeric() && minimum.is_numeric() && (order == NumericOrder::Greater
                || order == NumericOrder::Equal),
            None => false,
        },
        ConstraintPredicate::AtMost(maximum) => match selected {
            Some(v) => v.is_numeric() && maximum.is_numeric() && (order == NumericOrder::Less
                || order == NumericOrder::Equal),
            None => false,
        },
        ConstraintPredicate::Present => selected.is_some(),
    }
}

/// A named target with capability values keyed by property.
#[derive(Debug)]
pub struct TargetProfile {
    name: String,
    capabilities: Vec<(Property, PolicyValue)>,
}

pub struct TargetView {
    pub name: Seq<char>,
    pub capabilities: Map<Seq<char>, ValueView>,
}

/// The capability map of a list of entries with distinct properties.
pub open spec fn entries_map(entries: Seq<(Property, PolicyValue)>) -> Map<Seq<char>, ValueView>
    decreases entries.len(),
{
    if entries.len() == 0 {
        Map::empty()
    } else {
        entries_map(entries.drop_last()).insert(entries.last().0@, entries.last().1@)
    }
}

impl View for TargetProfile {
    type V = TargetView;

    closed spec fn view(&self) -> TargetView {
        TargetView { name: self.name@, capabilities: entries_map(self.capabilities@) }
    }
}

pub open spec fn distinct_keys(entries: Seq<(Property, PolicyValue)>) -> bool {
    forall|i: int, j: int| 0 <= i < j < entries.len() ==> entries[i].0@ != entries[j].0@
}

/// Entries whose properties and values have the same views give the same capability map.
pub proof fn lemma_entries_map_same_views(a: Seq<(Property, PolicyValue)>, b: Seq<(Property, PolicyValue)>)
    requires
        a.len() == b.len(),
        forall|k: int| 0 <= k < a.len() ==> (#[trigger] a[k]).0@ == b[k].0@ && a[k].1@ == b[k].1@,
    ensures
        entries_map(a) == entries_map(b),
    decreases a.len(),
{
    if a.len() > 0 {
        lemma_entries_map_same_views(a.drop_last(), b.drop_last());
    }
}

pub proof fn lemma_entries_map_lookup(entries: Seq<(Property, PolicyValue)>, i: int)
    requires
        distinct_keys(entries),
        0 <= i < entries.len(),
    ensures
        entries_map(entries).contains_key(entries[i].0@),
        entries_map(entries)[entries[i].0@] == entries[i].1@,
    decreases entries.len(),
{
    if i < entries.len() - 1 {
        lemma_entries_map_lookup(entries.drop_last(), i);
        assert(entries.drop_last()[i] == entries[i]);
    }
}

pub proof fn lemma_entries_map_absent(entries: Seq<(Property, PolicyValue)>, key: Seq<char>)
    requires
        forall|i: int| 0 <= i < entries.len() ==> (#[trigger] entries[i]).0@ != key,
    ensures
        !entries_map(entries).contains_key(key),
    decreases entries.len(),
{
    if entries.len() > 0 {
        assert forall|i: int| 0 <= i < entries.drop_last().len() implies (#[trigger] entries.drop_last()[i]).0@ != key by {
            assert(entries.drop_last()[i] == entries[i]);
        }
        lemma_entries_map_absent(entries.drop_last(), key);
        assert(entries[entries.len() - 1].0@ != key);
    }
}

/// A property of the map of a list of entries is the property of one of them.
pub proof fn lemma_entries_map_index(entries: Seq<(Property, PolicyValue)>, key: Seq<char>)
    ensures
        entries_map(entries).contains_key(key) ==> exists|k: int|
            0 <= k < entries.len() && (#[trigger] entries[k]).0@ == key,
    decreases entries.len(),
{
    if entries.len() > 0 {
        lemma_entries_map_index(entries.drop_last(), key);
        if entries_map(entries).contains_key(key) {
            if entries[entries.len() - 1].0@ == key {
                assert(entries[entries.len() - 1].0@ == key);
            } else {
                let k = choose|k: int| 0 <= k < entries.drop_last().len() && (#[trigger] entries.drop_last()[k]).0@ == key;
                assert(entries[k] == entries.drop_last()[k]);
            }
        }
    }
}

pub proof fn lemma_entries_map_update(entries: Seq<(Property, PolicyValue)>, i: int, entry: (Property, PolicyValue))
    requires
        distinct_keys(entries),
        0 <= i < entries.len(),
        entries[i].0@ == entry.0@,
    ensures
        entries_map(entries.update(i, entry)) == entries_map(entries).insert(entry.0@, entry.1@),
        distinct_keys(entries.update(i, entry)),
    decreases entries.len(),
{
    let u = entries.update(i, entry);
    if i == entries.len() - 1 {
        assert(u.drop_last() =~= entries.drop_last());
        assert(entries_map(u) =~= entries_map(entries).insert(entry.0@, entry.1@));
    } else {
        assert(u.drop_last() =~= entries.drop_last().update(i, entry));
        lemma_entries_map_update(entries.drop_last(), i, entry);
        assert(entries_map(u) =~= entries_map(entries).insert(entry.0@, entry.1@));
    }
}

/// Sets the value of a property in a list of entries with distinct properties, replacing
/// any earlier value.
pub fn set_entry(entries: &mut Vec<(Property, PolicyValue)>, property: &str, value: PolicyValue)
    requires
        distinct_keys(old(entries)@),
    ensures
        distinct_keys(final(entries)@),
        entries_map(final(entries)@) == entries_map(old(entries)@).insert(property@, value@),
{
    let key = Property::new(property);
    let mut i: usize = 0;
    while i < entries.len()
        invariant
            0 <= i <= entries@.len(),
            entries@ == old(entries)@,
            distinct_keys(entries@),
            key@ == property@,
            forall|k: int| 0 <= k < i ==> (#[trigger] entries@[k]).0@ != key@,
        decreases entries@.len() - i,
    {
        if entries[i].0.same(&key) {
            let ghost before = entries@;
            let entry = (key, value);
            proof {
                lemma_entries_map_update(before, i as int, entry);
            }
            entries.set(i, entry);
            return;
        }
        i = i + 1;
    }
    let ghost before = entries@;
    entries.push((key, value));
    proof {
        assert(entries@.drop_last() =~= before);
        assert(distinct_keys(entries@));
    }
}

/// The value of a property in a list of entries with distinct properties.
pub fn find_entry<'a>(entries: &'a [(Property, PolicyValue)], property: &Property) -> (r: Option<&'a PolicyValue>)
    requires
        distinct_keys(entries@),
    ensures
        match r {
            Some(v) => entries_map(entries@).contains_key(property@) && entries_map(entries@)[property@] == v@,
            None => !entries_map(entries@).contains_key(property@),
        },
{
    let mut i: usize = 0;
    while i < entries.len()
        invariant
            0 <= i <= entries@.len(),
            distinct_keys(entries@),
            forall|k: int| 0 <= k < i ==> (#[trigger] entries@[k]).0@ != property@,
        decreases entries@.len() - i,
    {
        if entries[i].0.same(property) {
            proof {
                lemma_entries_map_lookup(entries@, i as int);
            }
            return Some(&entries[i].1);
        }
        i = i + 1;
    }
    proof {
        lemma_entries_map_absent(entries@, property@);
    }
    None
}

impl TargetProfile {
    pub closed spec fn wf(&self) -> bool {
        distinct_keys(self.capabilities@)
    }

    pub fn new(name: &str) -> (r: TargetProfile)
        ensures
            r.wf(),
            r@.name == name@,
            r@.capabilities == Map::<Seq<char>, ValueView>::empty(),
    {
        TargetProfile { name: name.to_string(), capabilities: Vec::new() }
    }

    /// Sets a capability, replacing any earlier value of the property.
    pub fn set_capability(&mut self, property: &str, value: PolicyValue)
        requires
            old(self).wf(),
        ensures
            final(self).wf(),
            final(self)@.name == old(self)@.name,
            final(self)@.capabilities == old(self)@.capabilities.insert(property@, value@),
    {
        set_entry(&mut self.capabilities, property, value);
    }

    /// The profile with a capability set.
    pub fn capability(self, property: &str, value: PolicyValue) -> (r: TargetProfile)
        requires
            self.wf(),
        ensures
            r.wf(),
            r@.name == self@.name,
            r@.capabilities == self@.capabilities.insert(property@, value@),
    {
        let mut t = self;
        t.set_capability(property, value);
        t
    }

    pub fn name(&self) -> (r: &str)
        ensures
            r@ == self@.name,
    {
        self.name.as_str()
    }

    /// The capability value of a property.
    pub fn get(&self, property: &Property) -> (r: Option<&PolicyValue>)
        requires
            self.wf(),
        ensures
            match r {
                Some(v) => self@.capabilities.contains_key(property@) && self@.capabilities[property@] == v@,
                None => !self@.capabilities.contains_key(property@),
            },
    {
        find_entry(self.capabilities.as_slice(), property)
    }

    /// The capability value of a property named by text.
    pub fn capability_value(&self, property: &str) -> (r: Option<&PolicyValue>)
        requires
            self.wf(),
        ensures
            match r {
                Some(v) => self@.capabilities.contains_key(property@) && self@.capabilities[property@] == v@,
                None => !self@.capabilities.contains_key(property@),
            },
    {
        let key = Property::new(property);
        self.get(&key)
    }

    pub fn clone_profile(&self) -> (r: TargetProfile)
        requires
            self.wf(),
        ensures
            r.wf(),
            r@ == self@,
    {
        let mut out: Vec<(Property, PolicyValue)> = Vec::new();
        let mut i: usize = 0;
        while i < self.capabilities.len()
            invariant
                i <= self.capabilities.len(),
                out@.len() == i,
                forall|k: int|
                    0 <= k < i ==> (#[trigger] out@[k]).0@ == self.capabilities@[k].0@
                        && out@[k].1@ == self.capabilities@[k].1@,
            decreases self.capabilities.len() - i,
        {
            let entry = &self.capabilities[i];
            out.push((entry.0.clone_property(), entry.1.clone_value()));
            i = i + 1;
        }
        proof {
            lemma_entries_map_same_views(out@, self.capabilities@);
            assert forall|a: int, b: int| 0 <= a < b < out@.len() implies out@[a].0@ != out@[b].0@ by {
                assert(self.capabilities@[a].0@ != self.capabilities@[b].0@);
            }
        }
        TargetProfile { name: self.name.clone(), capabilities: out }
    }

    /// The capabilities, as property and value pairs with distinct properties.
    pub fn capabilities(&self) -> (r: &[(Property, PolicyValue)])
        requires
            self.wf(),
        ensures
            distinct_keys(r@),
            entries_map(r@) == self@.capabilities,
    {
        self.capabilities.as_slice()
    }
}

/// A capability a target must offer.
#[derive(Debug)]
pub struct CapabilityRequirement {
    property: Property,
    predicate: ConstraintPredicate,
}

pub struct RequirementView {
    pub property: Seq<char>,
    pub predicate: PredicateView,
}

impl View for CapabilityRequirement {
    type V = RequirementView;

    closed spec fn view(&self) -> RequirementView {
        RequirementView { property: self.property@, predicate: self.predicate@ }
    }
}

/// Whether a target meets a requirement; no target meets any.
pub open spec fn requirement_met(req: RequirementView, target: Option<TargetView>, order: NumericOrder) -> bool {
    match target {
        Some(t) => predicate_holds(
            req.predicate,
            if t.capabilities.contains_key(req.property) {
                Some(t.capabilities[req.property])
            } else {
                None
            },
            order,
        ),
        None => false,
    }
}

impl CapabilityRequirement {
    pub fn new(property: &str, predicate: ConstraintPredicate) -> (r: CapabilityRequirement)
        ensures
            r@ == (RequirementView { property: property@, predicate: predicate@ }),
    {
        CapabilityRequirement { property: Property::new(property), predicate }
    }

    pub fn present(property: &str) -> (r: CapabilityRequirement)
        ensures
            r@ == (RequirementView { property: property@, predicate: PredicateView::Present }),
    {
        Self::new(property, ConstraintPredicate::Present)
    }

    pub fn equals(property: &str, value: PolicyValue) -> (r: CapabilityRequirement)
        ensures
            r@ == (RequirementView { property: property@, predicate: PredicateView::Equals(value@) }),
    {
        Self::new(property, ConstraintPredicate::Equals(value))
    }

    pub fn at_least(property: &str, value: PolicyValue) -> (r: CapabilityRequirement)
        ensures
            r@ == (RequirementView { property: property@, predicate: PredicateView::AtLeast(value@) }),
    {
        Self::new(property, ConstraintPredicate::AtLeast(value))
    }

    pub fn at_most(property: &str, value: PolicyValue) -> (r: CapabilityRequirement)
        ensures
            r@ == (RequirementView { property: property@, predicate: PredicateView::AtMost(value@) }),
    {
        Self::new(property, ConstraintPredicate::AtMost(value))
    }

    pub fn property(&self) -> (r: &Property)
        ensures
            r@ == self@.property,
    {
        &self.property
    }

    pub fn predicate(&self) -> (r: &ConstraintPredicate)
        ensures
            r@ == self@.predicate,
    {
        &self.predicate
    }

    /// Whether `target` offers the capability; `order` is how the target's number compares
    /// with the requirement's bound as doubles.
    pub fn is_satisfied_by(&self, target: Option<&TargetProfile>, order: NumericOrder) -> (r: bool)
        requires
            target matches Some(t) ==> t.wf(),
        ensures
            r == requirement_met(
                self@,
                match target {
                    Some(t) => Some(t@),
                    None => None,
                },
                order,
            ),
    {
        match target {
            Some(t) => {
                let value = t.get(&self.property);
                predicate_matches(&self.predicate, value, order)
            },
            None => false,
        }
    }

    pub fn clone_requirement(&self) -> (r: CapabilityRequirement)
        ensures
            r@ == self@,
    {
        CapabilityRequirement {
            property: self.property.clone_property(),
            predicate: self.predicate.clone_predicate(),
        }
    }
}


/// How one integer compares with another.
pub open spec fn integer_order(a: int, b: int) -> NumericOrder {
    if a < b {
        NumericOrder::Less
    } else if a == b {
        NumericOrder::Equal
    } else {
        NumericOrder::Greater
    }
}

/// A bound on a number: when the target's capability is the integer `v` and the order
/// handed in is how `v` compares with the bound `m`, `AtLeast(m)` is met exactly when
/// `v >= m` and `AtMost(m)` exactly when `v <= m`; a capability equal to the bound meets both.
pub proof fn law_integer_bounds(t: TargetView, property: Seq<char>, v: i64, m: i64)
    requires
        t.capabilities.contains_key(property),
        t.capabilities[property] == ValueView::Integer(v),
    ensures
        requirement_met(
            RequirementView { property, predicate: PredicateView::AtLeast(ValueView::Integer(m)) },
            Some(t),
            integer_order(v as int, m as int),
        ) <==> v >= m,
        requirement_met(
            RequirementView { property, predicate: PredicateView::AtMost(ValueView::Integer(m)) },
            Some(t),
            integer_order(v as int, m as int),
        ) <==> v <= m,
{
}

/// For numbers of either kind, a bound is met when the number compares equal to it, a lower
/// bound also when it is greater and an upper bound also when it is less, and not otherwise;
/// a missing capability, a value that is no number, and no target at all meet no bound.
pub proof fn law_bounds_by_order(v: ValueView, m: ValueView, order: NumericOrder, property: Seq<char>, t: TargetView)
    ensures
        value_is_numeric(v) && value_is_numeric(m) ==> {
            &&& predicate_holds(PredicateView::AtLeast(m), Some(v), NumericOrder::Equal)
            &&& predicate_holds(PredicateView::AtMost(m), Some(v), NumericOrder::Equal)
            &&& predicate_holds(PredicateView::AtLeast(m), Some(v), NumericOrder::Greater)
            &&& !predicate_holds(PredicateView::AtLeast(m), Some(v), NumericOrder::Less)
            &&& predicate_holds(PredicateView::AtMost(m), Some(v), NumericOrder::Less)
            &&& !predicate_holds(PredicateView::AtMost(m), Some(v), NumericOrder::Greater)
        },
        !predicate_holds(PredicateView::AtLeast(m), Some(v), NumericOrder::Unordered),
        !predicate_holds(PredicateView::AtMost(m), Some(v), NumericOrder::Unordered),
        !value_is_numeric(v) ==> !predicate_holds(PredicateView::AtLeast(m), Some(v), order)
            && !predicate_holds(PredicateView::AtMost(m), Some(v), order),
        !predicate_holds(PredicateView::AtLeast(m), None, order),
        !t.capabilities.contains_key(property) ==> !requirement_met(
            RequirementView { property, predicate: PredicateView::AtLeast(m) },
            Some(t),
            order,
        ),
        !requirement_met(RequirementView { property, predicate: PredicateView::AtLeast(m) }, None, order),
{
}

} // verus!
