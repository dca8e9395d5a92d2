use vstd::prelude::*;

use crate::registry::pass::{find_string, names_view};

verus! {

/// Which analyses have a cached result, by analysis name. An analysis is computed on its first
/// request and then served from the cache until it is invalidated.
#[derive(Debug)]
pub struct AnalysisManager {
    cached: Vec<String>,
}

impl View for AnalysisManager {
    type V = Set<Seq<char>>;

    closed spec fn view(&self) -> Set<Seq<char>> {
        names_view(self.cached@).to_set()
    }
}

impl AnalysisManager {
    /// Nothing is cached.
    pub fn new() -> (r: AnalysisManager)
        ensures
            r@ == Set::<Seq<char>>::empty(),
    {
        let r = AnalysisManager { cached: Vec::new() };
        proof {
            assert(names_view(r.cached@).to_set() =~= Set::<Seq<char>>::empty());
        }
        r
    }

    proof fn lemma_contains(&self, name: Seq<char>)
        ensures
            self@.contains(name) <==> exists|k: int|
                0 <= k < self.cached@.len() && (#[trigger] self.cached@[k])@ == name,
    {
        let v = names_view(self.cached@);
        if v.to_set().contains(name) {
            assert(v.contains(name));
            let k = choose|k: int| 0 <= k < v.len() && v[k] == name;
            assert(self.cached@[k]@ == name);
        }
        if exists|k: int| 0 <= k < self.cached@.len() && (#[trigger] self.cached@[k])@ == name {
            let k = choose|k: int| 0 <= k < self.cached@.len() && (#[trigger] self.cached@[k])@ == name;
            assert(v[k] == name);
        }
    }

    /// Whether the analysis has a cached result.
    pub fn is_cached(&self, analysis: &str) -> (r: bool)
        ensures
            r == self@.contains(analysis@),
    {
        proof {
            self.lemma_contains(analysis@);
        }
        find_string(&self.cached, analysis).is_some()
    }

    /// Requests an analysis. The result says whether it has to be computed now (it was not
    /// cached); either way it is cached afterwards.
    pub fn get(&mut self, analysis: &str) -> (compute: bool)
        ensures
            compute == !old(self)@.contains(analysis@),
            final(self)@ == old(self)@.insert(analysis@),
    {
        proof {
            self.lemma_contains(analysis@);
        }
        if find_string(&self.cached, analysis).is_some() {
            proof {
                assert(old(self)@.insert(analysis@) =~= old(self)@);
            }
            return false;
        }
        let ghost before = self.cached@;
        self.cached.push(analysis.to_string());
        proof {
            let a = names_view(before);
            let b = names_view(self.cached@);
            assert(b =~= a.push(analysis@));
            assert forall|x: Seq<char>| b.contains(x) <==> (a.contains(x) || x == analysis@) by {
                if b.contains(x) {
                    let k = choose|k: int| 0 <= k < b.len() && b[k] == x;
                    if k < a.len() {
                        assert(a[k] == x);
                    }
                }
                if a.contains(x) {
                    let k = choose|k: int| 0 <= k < a.len() && a[k] == x;
                    assert(b[k] == x);
                }
                if x == analysis@ {
                    assert(b[a.len() as int] == x);
                }
            }
            assert(b.to_set() =~= a.to_set().insert(analysis@));
        }
        true
    }

    /// Drops the cached result of one analysis.
    pub fn invalidate(&mut self, analysis: &str)
        ensures
            final(self)@ == old(self)@.remove(analysis@),
    {
        let mut kept: Vec<String> = Vec::new();
        let mut i: usize = 0;
        let key = analysis.to_string();
        while i < self.cached.len()
            invariant
                0 <= i <= self.cached@.len(),
                self.cached@ == old(self).cached@,
                key@ == analysis@,
                forall|x: Seq<char>|
                    names_view(kept@).contains(x) <==> (x != analysis@ && exists|k: int|
                        0 <= k < i && (#[trigger] self.cached@[k])@ == x),
            decreases self.cached@.len() - i,
        {
            let ghost before = kept@;
            let pushed = self.cached[i] != key;
            if pushed {
                kept.push(self.cached[i].clone());
            }
            proof {
                if pushed {
                    assert(names_view(kept@) =~= names_view(before).push(self.cached@[i as int]@));
                    assert(self.cached@[i as int]@ != analysis@);
                } else {
                    assert(names_view(kept@) =~= names_view(before));
                    assert(self.cached@[i as int]@ == analysis@);
                }
                assert forall|x: Seq<char>|
                    names_view(kept@).contains(x) <==> (x != analysis@ && exists|k: int|
                        0 <= k < i + 1 && (#[trigger] self.cached@[k])@ == x) by {
                    let a = names_view(before);
                    let b = names_view(kept@);
                    if b.contains(x) {
                        let k = choose|k: int| 0 <= k < b.len() && b[k] == x;
                        if k < a.len() {
                            assert(a[k] == x);
                            assert(a.contains(x));
                            let j = choose|j: int| 0 <= j < i && (#[trigger] self.cached@[j])@ == x;
                            assert(self.cached@[j]@ == x);
                        } else {
                            assert(self.cached@[i as int]@ == x);
                        }
                    }
                    if x != analysis@ && exists|k: int| 0 <= k < i + 1 && (#[trigger] self.cached@[k])@ == x {
                        let k = choose|k: int| 0 <= k < i + 1 && (#[trigger] self.cached@[k])@ == x;
                        if k < i {
                            assert(a.contains(x));
                            let j = choose|j: int| 0 <= j < a.len() && a[j] == x;
                            assert(b[j] == x);
                        } else {
                            assert(b[a.len() as int] == x);
                        }
                    }
                }
            }
            i = i + 1;
        }
        proof {
            assert forall|x: Seq<char>| names_view(kept@).to_set().contains(x) <==> old(self)@.remove(analysis@).contains(x) by {
                self.lemma_contains(x);
            }
            assert(names_view(kept@).to_set() =~= old(self)@.remove(analysis@));
        }
        self.cached = kept;
    }

    /// Drops every cached result.
    pub fn invalidate_all(&mut self)
        ensures
            final(self)@ == Set::<Seq<char>>::empty(),
    {
        self.cached = Vec::new();
        proof {
            assert(names_view(self.cached@).to_set() =~= Set::<Seq<char>>::empty());
        }
    }
}

impl Default for AnalysisManager {
    fn default() -> (r: AnalysisManager)
        ensures
            r@ == Set::<Seq<char>>::empty(),
    {
        AnalysisManager::new()
    }
}

} // verus!
