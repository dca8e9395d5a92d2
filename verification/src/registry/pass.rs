use vstd::prelude::*;

use super::error::{RegistryError, RegistryErrorView};
use crate::names::is_name_text;

verus! {

/// Position of the first string equal to `name`.
pub fn find_string(v: &Vec<String>, name: &str) -> (r: Option<usize>)
    ensures
        match r {
            Some(i) => (i as int) < v@.len() && v@[i as int]@ == name@ && forall|k: int|
                0 <= k < i ==> (#[trigger] v@[k])@ != name@,
            None => forall|k: int| 0 <= k < v@.len() ==> (#[trigger] v@[k])@ != name@,
        },
{
    let key = name.to_string();
    let mut i: usize = 0;
    while i < v.len()
        invariant
            0 <= i <= v@.len(),
            key@ == name@,
            forall|k: int| 0 <= k < i ==> (#[trigger] v@[k])@ != name@,
        decreases v@.len() - i,
    {
        if v[i] == key {
            return Some(i);
        }
        i = i + 1;
    }
    None
}

pub open spec fn names_view(v: Seq<String>) -> Seq<Seq<char>> {
    v.map_values(|s: String| s@)
}

/// The passes that pipelines may name. Each pass is registered under a name; the factories
/// that build the passes are kept by the caller under the same names.
/// What registering the pass `name` with the names `names` gives: the names with it added, or
/// `DuplicatePass` when it is there already.
pub open spec fn pass_registration(names: Set<Seq<char>>, name: Seq<char>) -> Result<Set<Seq<char>>, RegistryErrorView> {
    if names.contains(name) {
        Err(RegistryErrorView::DuplicatePass(name))
    } else {
        Ok(names.insert(name))
    }
}

#[derive(Debug)]
pub struct PassRegistry {
    names: Vec<String>,
}

/// Copies a list of strings.
pub fn clone_strings(v: &Vec<String>) -> (r: Vec<String>)
    ensures
        names_view(r@) == names_view(v@),
{
    let mut r: Vec<String> = Vec::new();
    for i in 0..v.len()
        invariant
            r@.len() == i,
            forall|k: int| 0 <= k < i ==> (#[trigger] r@[k])@ == v@[k]@,
    {
        r.push(v[i].clone());
    }
    proof {
        assert(names_view(r@) =~= names_view(v@));
    }
    r
}

impl View for PassRegistry {
    type V = Set<Seq<char>>;

    closed spec fn view(&self) -> Set<Seq<char>> {
        names_view(self.names@).to_set()
    }
}

impl PassRegistry {
    pub fn new() -> (r: PassRegistry)
        ensures
            r@ == Set::<Seq<char>>::empty(),
    {
        let r = PassRegistry { names: Vec::new() };
        proof {
            assert(names_view(r.names@).to_set() =~= Set::<Seq<char>>::empty());
        }
        r
    }

    proof fn lemma_contains(&self, name: Seq<char>)
        ensures
            self@.contains(name) <==> exists|k: int| 0 <= k < self.names@.len() && (#[trigger] self.names@[k])@ == name,
    {
        let v = names_view(self.names@);
        if v.to_set().contains(name) {
            assert(v.contains(name));
            let k = choose|k: int| 0 <= k < v.len() && v[k] == name;
            assert(self.names@[k]@ == name);
        }
        if exists|k: int| 0 <= k < self.names@.len() && (#[trigger] self.names@[k])@ == name {
            let k = choose|k: int| 0 <= k < self.names@.len() && (#[trigger] self.names@[k])@ == name;
            assert(v[k] == name);
        }
    }

    /// Registers a pass name; a name can be registered once.
    pub fn register(&mut self, name: &str) -> (r: Result<(), RegistryError>)
        ensures
            pass_registration(old(self)@, name@) == match r {
                Ok(()) => Ok(final(self)@),
                Err(e) => Err::<Set<Seq<char>>, RegistryErrorView>(e@),
            },
            match r {
                Ok(()) => !old(self)@.contains(name@) && final(self)@ == old(self)@.insert(name@),
                Err(e) => old(self)@.contains(name@) && e@ == RegistryErrorView::DuplicatePass(name@)
                    && final(self)@ == old(self)@,
            },
    {
        proof {
            self.lemma_contains(name@);
        }
        if find_string(&self.names, name).is_some() {
            return Err(RegistryError::DuplicatePass(name.to_string()));
        }
        let ghost before = self.names@;
        self.names.push(name.to_string());
        proof {
            assert(names_view(self.names@) =~= names_view(before).push(name@));
            assert(names_view(self.names@).to_set() =~= names_view(before).to_set().insert(name@)) by {
                assert forall|x: Seq<char>| names_view(self.names@).contains(x) <==> (names_view(before).contains(x) || x == name@) by {
                    let a = names_view(before);
                    let b = names_view(self.names@);
                    if b.contains(x) {
                        let k = choose|k: int| 0 <= k < b.len() && b[k] == x;
                        if k < a.len() {
                            assert(a[k] == x);
                        }
                    }
                    if a.contains(x) {
                        let k = choose|k: int| 0 <= k < a.len() && a[k] == x;
                        assert(b[k] == x);
                    }
                    if x == name@ {
                        assert(b[a.len() as int] == x);
                    }
                }
            }
        }
        Ok(())
    }

    /// Registers a pass name whose factory builds boxed passes; a name can be registered once.
    pub fn register_boxed(&mut self, name: &str) -> (r: Result<(), RegistryError>)
        ensures
            match r {
                Ok(()) => !old(self)@.contains(name@) && final(self)@ == old(self)@.insert(name@),
                Err(e) => old(self)@.contains(name@) && e@ == RegistryErrorView::DuplicatePass(name@)
                    && final(self)@ == old(self)@,
            },
    {
        self.register(name)
    }

    /// Looks up the pass to build: its name, or `MissingPass` when none is registered.
    pub fn create(&self, name: &str) -> (r: Result<String, RegistryError>)
        ensures
            match r {
                Ok(n) => self@.contains(name@) && n@ == name@,
                Err(e) => !self@.contains(name@) && e@ == RegistryErrorView::MissingPass(name@),
            },
    {
        proof {
            self.lemma_contains(name@);
        }
        if find_string(&self.names, name).is_some() {
            Ok(name.to_string())
        } else {
            Err(RegistryError::MissingPass(name.to_string()))
        }
    }

    pub fn contains(&self, name: &str) -> (r: bool)
        ensures
            r == self@.contains(name@),
    {
        proof {
            self.lemma_contains(name@);
        }
        find_string(&self.names, name).is_some()
    }

    /// The registered names, each once.
    pub fn names(&self) -> (r: Vec<String>)
        ensures
            names_view(r@).to_set() == self@,
    {
        clone_strings(&self.names)
    }
}

} // verus!
