use vstd::prelude::*;

use super::edge::{edge_error, metric_entries, ConversionEdgeDescriptor, EdgeView};
use super::stage::ConversionStage;
use crate::policy::constraint::Property;
use crate::policy::objective::Metric;
use crate::policy::value::PolicyValue;
use crate::registry::error::{RegistryError, RegistryErrorView};
use crate::target::{
    distinct_keys, entries_map, lemma_entries_map_absent, lemma_entries_map_lookup,
};

verus! {

pub open spec fn edge_views(s: Seq<ConversionEdgeDescriptor>) -> Seq<EdgeView> {
    s.map_values(|e: ConversionEdgeDescriptor| e@)
}

pub open spec fn edge_names_distinct(s: Seq<EdgeView>) -> bool {
    forall|i: int, j: int| 0 <= i < j < s.len() ==> (#[trigger] s[i]).name != (#[trigger] s[j]).name
}

/// Some registered edge has this name.
/// What registering the edge `e` after the edges `s` gives: `s` with `e` appended, or the
/// error for an edge that fails its checks or whose name is taken.
pub open spec fn edge_registration(s: Seq<EdgeView>, e: EdgeView) -> Result<Seq<EdgeView>, RegistryErrorView> {
    match edge_error(e) {
        Some(message) => Err(RegistryErrorView::InvalidConversion { name: e.name, message }),
        None => if has_edge(s, e.name) {
            Err(RegistryErrorView::DuplicateConversion(e.name))
        } else {
            Ok(s.push(e))
        },
    }
}

pub open spec fn has_edge(s: Seq<EdgeView>, name: Seq<char>) -> bool {
    exists|i: int| 0 <= i < s.len() && (#[trigger] s[i]).name == name
}

/// The positions of the edges that leave `stage`, in increasing order.
pub open spec fn is_outgoing(s: Seq<EdgeView>, stage: Seq<char>, r: Seq<usize>) -> bool {
    &&& forall|k: int| 0 <= k < r.len() ==> (#[trigger] r[k]) < s.len() && s[r[k] as int].source == stage
    &&& forall|k: int, l: int| 0 <= k < l < r.len() ==> (#[trigger] r[k]) < (#[trigger] r[l])
    &&& forall|i: int| 0 <= i < s.len() && (#[trigger] s[i]).source == stage ==> r.contains(i as usize)
}

/// The properties that some edge sets.
pub open spec fn all_properties(s: Seq<EdgeView>) -> Set<Seq<char>> {
    Set::new(|p: Seq<char>| exists|i: int| 0 <= i < s.len() && (#[trigger] s[i]).properties.contains_key(p))
}

/// The metrics that some edge estimates.
pub open spec fn all_metrics(s: Seq<EdgeView>) -> Set<Seq<char>> {
    Set::new(
        |m: Seq<char>|
            exists|i: int, k: int|
                0 <= i < s.len() && 0 <= k < s[i].metrics.len() && (#[trigger] s[i].metrics[k]).0 == m,
    )
}

/// The registered conversion edges, in registration order, with distinct names.
#[derive(Debug)]
pub struct ConversionRegistry {
    edges: Vec<ConversionEdgeDescriptor>,
}

impl View for ConversionRegistry {
    type V = Seq<EdgeView>;

    closed spec fn view(&self) -> Seq<EdgeView> {
        edge_views(self.edges@)
    }
}

/// Adds `p` to a list of distinct properties unless it is there.
fn add_property(r: &mut Vec<Property>, p: &Property)
    requires
        old(r)@.map_values(|q: Property| q@).no_duplicates(),
    ensures
        final(r)@.map_values(|q: Property| q@).no_duplicates(),
        final(r)@.map_values(|q: Property| q@).to_set() == old(r)@.map_values(|q: Property| q@).to_set().insert(
            p@,
        ),
{
    let ghost before = r@.map_values(|q: Property| q@);
    let mut i: usize = 0;
    while i < r.len()
        invariant
            0 <= i <= r@.len(),
            r@.map_values(|q: Property| q@) == before,
            before.no_duplicates(),
            forall|k: int| 0 <= k < i ==> (#[trigger] before[k]) != p@,
        decreases r@.len() - i,
    {
        if r[i].same(p) {
            proof {
                assert(before[i as int] == p@);
                assert(before.contains(p@));
                assert(before.to_set().contains(p@));
                assert(before.to_set().insert(p@) =~= before.to_set());
            }
            return;
        }
        i = i + 1;
    }
    r.push(p.clone_property());
    proof {
        let after = r@.map_values(|q: Property| q@);
        assert(after =~= before.push(p@));
        assert forall|x: Seq<char>| after.contains(x) <==> (before.contains(x) || x == p@) by {
            if after.contains(x) {
                let k = choose|k: int| 0 <= k < after.len() && after[k] == x;
                if k < before.len() {
                    assert(before[k] == x);
                }
            }
            if before.contains(x) {
                let k = choose|k: int| 0 <= k < before.len() && before[k] == x;
                assert(after[k] == x);
            }
            if x == p@ {
                assert(after[before.len() as int] == x);
            }
        }
        assert(after.to_set() =~= before.to_set().insert(p@));
        assert forall|a: int, b: int| 0 <= a < after.len() && 0 <= b < after.len() && a != b implies after[a]
            != after[b] by {
            if a < before.len() && b < before.len() {
                assert(before[a] != before[b]);
            }
        }
    }
}

/// Adds `m` to a list of distinct metrics unless it is there.
fn add_metric(r: &mut Vec<Metric>, m: &Metric)
    requires
        old(r)@.map_values(|q: Metric| q@).no_duplicates(),
    ensures
        final(r)@.map_values(|q: Metric| q@).no_duplicates(),
        final(r)@.map_values(|q: Metric| q@).to_set() == old(r)@.map_values(|q: Metric| q@).to_set().insert(
            m@,
        ),
{
    let ghost before = r@.map_values(|q: Metric| q@);
    let mut i: usize = 0;
    while i < r.len()
        invariant
            0 <= i <= r@.len(),
            r@.map_values(|q: Metric| q@) == before,
            before.no_duplicates(),
            forall|k: int| 0 <= k < i ==> (#[trigger] before[k]) != m@,
        decreases r@.len() - i,
    {
        if r[i].same(m) {
            proof {
                assert(before[i as int] == m@);
                assert(before.contains(m@));
                assert(before.to_set().contains(m@));
                assert(before.to_set().insert(m@) =~= before.to_set());
            }
            return;
        }
        i = i + 1;
    }
    r.push(m.clone_metric());
    proof {
        let after = r@.map_values(|q: Metric| q@);
        assert(after =~= before.push(m@));
        assert forall|x: Seq<char>| after.contains(x) <==> (before.contains(x) || x == m@) by {
            if after.contains(x) {
                let k = choose|k: int| 0 <= k < after.len() && after[k] == x;
                if k < before.len() {
                    assert(before[k] == x);
                }
            }
            if before.contains(x) {
                let k = choose|k: int| 0 <= k < before.len() && before[k] == x;
                assert(after[k] == x);
            }
            if x == m@ {
                assert(after[before.len() as int] == x);
            }
        }
        assert(after.to_set() =~= before.to_set().insert(m@));
        assert forall|a: int, b: int| 0 <= a < after.len() && 0 <= b < after.len() && a != b implies after[a]
            != after[b] by {
            if a < before.len() && b < before.len() {
                assert(before[a] != before[b]);
            }
        }
    }
}

impl ConversionRegistry {
    #[verifier::type_invariant]
    spec fn inv(self) -> bool {
        edge_names_distinct(edge_views(self.edges@))
    }

    pub fn new() -> (r: ConversionRegistry)
        ensures
            r@ == Seq::<EdgeView>::empty(),
    {
        let r = ConversionRegistry { edges: Vec::new() };
        proof {
            assert(edge_views(r.edges@) =~= Seq::<EdgeView>::empty());
        }
        r
    }

    /// Position of the edge named `name`.
    fn position(&self, name: &str) -> (r: Option<usize>)
        ensures
            match r {
                Some(i) => i < self@.len() && self@[i as int].name == name@,
                None => !has_edge(self@, name@),
            },
    {
        let key = name.to_string();
        let mut i: usize = 0;
        while i < self.edges.len()
            invariant
                0 <= i <= self.edges@.len(),
                key@ == name@,
                forall|k: int| 0 <= k < i ==> (#[trigger] self.edges@[k])@.name != name@,
            decreases self.edges@.len() - i,
        {
            let candidate = self.edges[i].name();
            if candidate.to_string() == key {
                return Some(i);
            }
            i = i + 1;
        }
        proof {
            if has_edge(self@, name@) {
                let k = choose|k: int| 0 <= k < self@.len() && (#[trigger] self@[k]).name == name@;
                assert(self.edges@[k]@.name == name@);
            }
        }
        None
    }

    /// Registers an edge. It must pass its own checks and have a name no edge has.
    pub fn register(&mut self, edge: ConversionEdgeDescriptor) -> (r: Result<(), RegistryError>)
        ensures
            edge_registration(old(self)@, edge@) == match r {
                Ok(()) => Ok(final(self)@),
                Err(e) => Err::<Seq<EdgeView>, RegistryErrorView>(e@),
            },
            match r {
                Ok(()) => {
                    &&& edge_error(edge@) is None
                    &&& !has_edge(old(self)@, edge@.name)
                    &&& final(self)@ == old(self)@.push(edge@)
                },
                Err(e) => {
                    &&& final(self)@ == old(self)@
                    &&& match edge_error(edge@) {
                        Some(message) => e@ == RegistryErrorView::InvalidConversion {
                            name: edge@.name,
                            message,
                        },
                        None => has_edge(old(self)@, edge@.name) && e@
                            == RegistryErrorView::DuplicateConversion(edge@.name),
                    }
                },
            },
    {
        proof {
            use_type_invariant(&*self);
        }
        match edge.validate() {
            Err(message) => {
                return Err(RegistryError::InvalidConversion { name: edge.name().to_string(), message });
            },
            Ok(()) => {},
        }
        if self.position(edge.name()).is_some() {
            return Err(RegistryError::DuplicateConversion(edge.name().to_string()));
        }
        let ghost before = edge_views(self.edges@);
        let ghost d = edge@;
        let mut edges = Vec::new();
        std::mem::swap(&mut edges, &mut self.edges);
        edges.push(edge);
        proof {
            let s = edge_views(edges@);
            assert(s =~= before.push(d));
            assert forall|i: int, j: int| 0 <= i < j < s.len() implies (#[trigger] s[i]).name
                != (#[trigger] s[j]).name by {
                if j == s.len() - 1 {
                    if before[i].name == d.name {
                        assert(has_edge(before, d.name));
                    }
                } else {
                    assert(before[i].name != before[j].name);
                }
            }
        }
        self.edges = edges;
        Ok(())
    }

    /// The edge registered under `name`.
    pub fn get(&self, name: &str) -> (r: Option<&ConversionEdgeDescriptor>)
        ensures
            match r {
                Some(e) => exists|i: int| 0 <= i < self@.len() && self@[i] == e@ && e@.name == name@,
                None => !has_edge(self@, name@),
            },
    {
        match self.position(name) {
            Some(i) => Some(&self.edges[i]),
            None => None,
        }
    }

    /// The registered edges, in registration order.
    pub fn edges(&self) -> (r: &[ConversionEdgeDescriptor])
        ensures
            edge_views(r@) == self@,
    {
        self.edges.as_slice()
    }

    pub fn len(&self) -> (r: usize)
        ensures
            r == self@.len(),
    {
        self.edges.len()
    }

    /// The positions of the edges that leave `stage`, in increasing order.
    pub fn outgoing_indices(&self, stage: &ConversionStage) -> (r: Vec<usize>)
        ensures
            is_outgoing(self@, stage@, r@),
    {
        let mut r: Vec<usize> = Vec::new();
        for i in 0..self.edges.len()
            invariant
                forall|k: int| 0 <= k < r@.len() ==> (#[trigger] r@[k]) < i && self@[r@[k] as int].source
                    == stage@,
                forall|k: int, l: int| 0 <= k < l < r@.len() ==> (#[trigger] r@[k]) < (#[trigger] r@[l]),
                forall|j: int| 0 <= j < i && (#[trigger] self@[j]).source == stage@ ==> r@.contains(
                    j as usize,
                ),
                self@.len() == self.edges@.len(),
        {
            if self.edges[i].source().same(stage) {
                let ghost before = r@;
                r.push(i);
                proof {
                    assert forall|j: int| 0 <= j < i + 1 && (#[trigger] self@[j]).source == stage@ implies r@.contains(
                        j as usize,
                    ) by {
                        if j < i {
                            let k = choose|k: int| 0 <= k < before.len() && before[k] == j as usize;
                            assert(r@[k] == j as usize);
                        } else {
                            assert(r@[before.len() as int] == j as usize);
                        }
                    }
                }
            } else {
                proof {
                    assert(self@[i as int].source != stage@);
                }
            }
        }
        r
    }

    /// The edge at a position.
    pub fn edge(&self, index: usize) -> (r: Option<&ConversionEdgeDescriptor>)
        ensures
            match r {
                Some(e) => index < self@.len() && e@ == self@[index as int],
                None => index >= self@.len(),
            },
    {
        if index < self.edges.len() {
            Some(&self.edges[index])
        } else {
            None
        }
    }

    /// The properties that some edge sets, each once.
    pub fn properties(&self) -> (r: Vec<Property>)
        ensures
            r@.map_values(|q: Property| q@).no_duplicates(),
            r@.map_values(|q: Property| q@).to_set() == all_properties(self@),
    {
        let mut r: Vec<Property> = Vec::new();
        let ghost s = self@;
        for i in 0..self.edges.len()
            invariant
                s == self@,
                s.len() == self.edges@.len(),
                r@.map_values(|q: Property| q@).no_duplicates(),
                r@.map_values(|q: Property| q@).to_set() == Set::new(
                    |p: Seq<char>| exists|j: int| 0 <= j < i && (#[trigger] s[j]).properties.contains_key(p),
                ),
        {
            let entries = self.edges[i].properties();
            let ghost start = r@.map_values(|q: Property| q@).to_set();
            for k in 0..entries.len()
                invariant
                    distinct_keys(entries@),
                    entries_map(entries@) == s[i as int].properties,
                    r@.map_values(|q: Property| q@).no_duplicates(),
                    r@.map_values(|q: Property| q@).to_set() == start.union(
                        Set::new(|p: Seq<char>| exists|l: int| 0 <= l < k && (#[trigger] entries@[l]).0@ == p),
                    ),
            {
                add_property(&mut r, &entries[k].0);
                proof {
                    assert(r@.map_values(|q: Property| q@).to_set() =~= start.union(
                        Set::new(|p: Seq<char>| exists|l: int| 0 <= l < k + 1 && (#[trigger] entries@[l]).0@ == p),
                    )) by {
                        assert(entries@[k as int].0@ == entries@[k as int].0@);
                    }
                }
            }
            proof {
                let upto = Set::new(
                    |p: Seq<char>| exists|j: int| 0 <= j < i && (#[trigger] s[j]).properties.contains_key(p),
                );
                let next = Set::new(
                    |p: Seq<char>| exists|j: int| 0 <= j < i + 1 && (#[trigger] s[j]).properties.contains_key(p),
                );
                let here = Set::new(
                    |p: Seq<char>| exists|l: int| 0 <= l < entries@.len() && (#[trigger] entries@[l]).0@ == p,
                );
                assert forall|p: Seq<char>| here.contains(p) <==> s[i as int].properties.contains_key(p) by {
                    if here.contains(p) {
                        let l = choose|l: int| 0 <= l < entries@.len() && (#[trigger] entries@[l]).0@ == p;
                        lemma_entries_map_lookup(entries@, l);
                    }
                    if !here.contains(p) {
                        lemma_entries_map_absent(entries@, p);
                    }
                }
                assert(start.union(here) =~= next);
            }
        }
        r
    }

    /// The metrics that some edge estimates, each once.
    pub fn metrics(&self) -> (r: Vec<Metric>)
        ensures
            r@.map_values(|q: Metric| q@).no_duplicates(),
            r@.map_values(|q: Metric| q@).to_set() == all_metrics(self@),
    {
        let mut r: Vec<Metric> = Vec::new();
        let ghost s = self@;
        for i in 0..self.edges.len()
            invariant
                s == self@,
                s.len() == self.edges@.len(),
                r@.map_values(|q: Metric| q@).no_duplicates(),
                r@.map_values(|q: Metric| q@).to_set() == Set::new(
                    |m: Seq<char>|
                        exists|j: int, k: int|
                            0 <= j < i && 0 <= k < s[j].metrics.len() && (#[trigger] s[j].metrics[k]).0 == m,
                ),
        {
            let entries = self.edges[i].metrics();
            let ghost start = r@.map_values(|q: Metric| q@).to_set();
            for k in 0..entries.len()
                invariant
                    metric_entries(entries@) == s[i as int].metrics,
                    r@.map_values(|q: Metric| q@).no_duplicates(),
                    r@.map_values(|q: Metric| q@).to_set() == start.union(
                        Set::new(|m: Seq<char>| exists|l: int| 0 <= l < k && (#[trigger] entries@[l]).0@ == m),
                    ),
            {
                add_metric(&mut r, &entries[k].0);
                proof {
                    assert(r@.map_values(|q: Metric| q@).to_set() =~= start.union(
                        Set::new(|m: Seq<char>| exists|l: int| 0 <= l < k + 1 && (#[trigger] entries@[l]).0@ == m),
                    )) by {
                        assert(entries@[k as int].0@ == entries@[k as int].0@);
                    }
                }
            }
            proof {
                let next = Set::new(
                    |m: Seq<char>|
                        exists|j: int, k: int|
                            0 <= j < i + 1 && 0 <= k < s[j].metrics.len() && (#[trigger] s[j].metrics[k]).0 == m,
                );
                let here = Set::new(
                    |m: Seq<char>| exists|l: int| 0 <= l < entries@.len() && (#[trigger] entries@[l]).0@ == m,
                );
                assert forall|m: Seq<char>| start.union(here).contains(m) <==> next.contains(m) by {
                    if here.contains(m) {
                        let l = choose|l: int| 0 <= l < entries@.len() && (#[trigger] entries@[l]).0@ == m;
                        assert(s[i as int].metrics[l].0 == m);
                    }
                    if next.contains(m) {
                        let (j, k) = choose|j: int, k: int|
                            0 <= j < i + 1 && 0 <= k < s[j].metrics.len() && (#[trigger] s[j].metrics[k]).0 == m;
                        if j == i {
                            assert(entries@[k].0@ == m);
                        }
                    }
                }
                assert(start.union(here) =~= next);
            }
        }
        r
    }
}

impl Default for ConversionRegistry {
    fn default() -> (r: ConversionRegistry)
        ensures
            r@ == Seq::<EdgeView>::empty(),
    {
        ConversionRegistry::new()
    }
}

} // verus!
