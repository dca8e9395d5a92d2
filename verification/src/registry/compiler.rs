use vstd::prelude::*;

use super::error::{RegistryError, RegistryErrorView};
use super::pass::{clone_strings, find_string, names_view, PassRegistry};
use super::pipeline::{DescriptorView, PipelineRegistry};
use crate::planning::edge::EdgeView;
use crate::planning::registry::ConversionRegistry;
use crate::pass::manager::PassManager;

verus! {

/// Whether an extension named `name` may register after the extensions `names`.
pub open spec fn extension_check(names: Set<Seq<char>>, name: Seq<char>) -> Result<(), RegistryErrorView> {
    if names.contains(name) {
        Err(RegistryErrorView::DuplicateExtension(name))
    } else {
        Ok(())
    }
}

/// The passes, pipelines and conversion edges known to the compiler, and the names of the
/// extensions that registered into them.
#[derive(Debug)]
pub struct CompilerRegistry {
    passes: PassRegistry,
    pipelines: PipelineRegistry,
    conversions: ConversionRegistry,
    extensions: Vec<String>,
}

pub struct CompilerView {
    pub passes: Set<Seq<char>>,
    pub pipelines: Map<Seq<char>, DescriptorView>,
    pub conversions: Seq<EdgeView>,
    pub extensions: Set<Seq<char>>,
}

impl View for CompilerRegistry {
    type V = CompilerView;

    closed spec fn view(&self) -> CompilerView {
        CompilerView {
            passes: self.passes@,
            pipelines: self.pipelines@,
            conversions: self.conversions@,
            extensions: names_view(self.extensions@).to_set(),
        }
    }
}

impl CompilerRegistry {
    /// Nothing is registered.
    pub fn new() -> (r: CompilerRegistry)
        ensures
            r@.passes == Set::<Seq<char>>::empty(),
            r@.pipelines == Map::<Seq<char>, DescriptorView>::empty(),
            r@.conversions == Seq::<EdgeView>::empty(),
            r@.extensions == Set::<Seq<char>>::empty(),
    {
        let r = CompilerRegistry {
            passes: PassRegistry::new(),
            pipelines: PipelineRegistry::new(),
            conversions: ConversionRegistry::new(),
            extensions: Vec::new(),
        };
        proof {
            assert(names_view(r.extensions@).to_set() =~= Set::<Seq<char>>::empty());
        }
        r
    }

    pub fn passes(&self) -> (r: &PassRegistry)
        ensures
            r@ == self@.passes,
    {
        &self.passes
    }

    pub fn passes_mut(&mut self) -> (r: &mut PassRegistry)
        ensures
            r@ == old(self)@.passes,
            final(self)@ == (CompilerView { passes: final(r)@, ..old(self)@ }),
    {
        &mut self.passes
    }

    pub fn pipelines(&self) -> (r: &PipelineRegistry)
        ensures
            r@ == self@.pipelines,
    {
        &self.pipelines
    }

    pub fn pipelines_mut(&mut self) -> (r: &mut PipelineRegistry)
        ensures
            r@ == old(self)@.pipelines,
            final(self)@ == (CompilerView { pipelines: final(r)@, ..old(self)@ }),
    {
        &mut self.pipelines
    }

    pub fn conversions(&self) -> (r: &ConversionRegistry)
        ensures
            r@ == self@.conversions,
    {
        &self.conversions
    }

    pub fn conversions_mut(&mut self) -> (r: &mut ConversionRegistry)
        ensures
            r@ == old(self)@.conversions,
            final(self)@ == (CompilerView { conversions: final(r)@, ..old(self)@ }),
    {
        &mut self.conversions
    }

    /// The pass manager of a registered pipeline, verifying the module after each pass or
    /// not.
    pub fn create_pipeline(&self, name: &str, verify_each: bool) -> (r: Result<PassManager, RegistryError>)
        ensures
            match r {
                Ok(m) => {
                    &&& self@.pipelines.contains_key(name@)
                    &&& m@.passes == self@.pipelines[name@].passes
                    &&& m@.verify_each == verify_each
                    &&& forall|k: int|
                        0 <= k < self@.pipelines[name@].passes.len() ==> self@.passes.contains(
                            #[trigger] self@.pipelines[name@].passes[k],
                        )
                },
                Err(e) => if !self@.pipelines.contains_key(name@) {
                    e@ == RegistryErrorView::MissingPipeline(name@)
                } else {
                    exists|k: int|
                        0 <= k < self@.pipelines[name@].passes.len() && !self@.passes.contains(
                            #[trigger] self@.pipelines[name@].passes[k],
                        ) && e@ == RegistryErrorView::MissingPass(self@.pipelines[name@].passes[k])
                },
            },
    {
        let manager = self.pipelines.build(name, &self.passes)?;
        Ok(manager.verify_each(verify_each))
    }

    proof fn lemma_contains(&self, name: Seq<char>)
        ensures
            self@.extensions.contains(name) <==> exists|k: int|
                0 <= k < self.extensions@.len() && (#[trigger] self.extensions@[k])@ == name,
    {
        let v = names_view(self.extensions@);
        if v.to_set().contains(name) {
            assert(v.contains(name));
            let k = choose|k: int| 0 <= k < v.len() && v[k] == name;
            assert(self.extensions@[k]@ == name);
        }
        if exists|k: int| 0 <= k < self.extensions@.len() && (#[trigger] self.extensions@[k])@ == name {
            let k = choose|k: int| 0 <= k < self.extensions@.len() && (#[trigger] self.extensions@[k])@ == name;
            assert(v[k] == name);
        }
    }

    /// Whether an extension of this name may register: it fails with `DuplicateExtension`
    /// when one of the name already has.
    pub fn check_extension(&self, name: &str) -> (r: Result<(), RegistryError>)
        ensures
            extension_check(self@.extensions, name@) == match r {
                Ok(()) => Ok(()),
                Err(e) => Err::<(), RegistryErrorView>(e@),
            },
            match r {
                Ok(()) => !self@.extensions.contains(name@),
                Err(e) => self@.extensions.contains(name@) && e@ == RegistryErrorView::DuplicateExtension(name@),
            },
    {
        proof {
            self.lemma_contains(name@);
        }
        if find_string(&self.extensions, name).is_some() {
            Err(RegistryError::DuplicateExtension(name.to_string()))
        } else {
            Ok(())
        }
    }

    /// Records that the extension `name` has registered.
    pub fn record_extension(&mut self, name: &str)
        ensures
            final(self)@ == (CompilerView { extensions: old(self)@.extensions.insert(name@), ..old(self)@ }),
    {
        proof {
            self.lemma_contains(name@);
        }
        if find_string(&self.extensions, name).is_some() {
            proof {
                assert(old(self)@.extensions.insert(name@) =~= old(self)@.extensions);
            }
            return;
        }
        let ghost before = self.extensions@;
        self.extensions.push(name.to_string());
        proof {
            let a = names_view(before);
            let b = names_view(self.extensions@);
            assert(b =~= a.push(name@));
            assert forall|x: Seq<char>| b.contains(x) <==> (a.contains(x) || x == name@) by {
                if b.contains(x) {
                    let k = choose|k: int| 0 <= k < b.len() && b[k] == x;
                    if k < a.len() {
                        assert(a[k] == x);
                    }
                }
                if a.contains(x) {
                    let k = choose|k: int| 0 <= k < a.len() && a[k] == x;
                    assert(b[k] == x);
                }
                if x == name@ {
                    assert(b[a.len() as int] == x);
                }
            }
            assert(b.to_set() =~= a.to_set().insert(name@));
        }
    }

    pub fn has_extension(&self, name: &str) -> (r: bool)
        ensures
            r == self@.extensions.contains(name@),
    {
        proof {
            self.lemma_contains(name@);
        }
        find_string(&self.extensions, name).is_some()
    }

    /// The names of the registered extensions.
    pub fn extensions(&self) -> (r: Vec<String>)
        ensures
            names_view(r@).to_set() == self@.extensions,
    {
        clone_strings(&self.extensions)
    }
}

impl Default for CompilerRegistry {
    fn default() -> (r: CompilerRegistry)
        ensures
            r@.passes == Set::<Seq<char>>::empty(),
            r@.pipelines == Map::<Seq<char>, DescriptorView>::empty(),
            r@.conversions == Seq::<EdgeView>::empty(),
            r@.extensions == Set::<Seq<char>>::empty(),
    {
        CompilerRegistry::new()
    }
}

} // verus!
