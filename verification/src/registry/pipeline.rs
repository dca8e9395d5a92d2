use vstd::prelude::*;

use super::error::{RegistryError, RegistryErrorView};
use super::pass::{clone_strings, names_view, PassRegistry};
use crate::names::{is_name_text, is_valid_registry_name};
use crate::pass::manager::PassManager;

verus! {

/// A named pipeline: the names of its passes, in the order they run.
#[derive(Debug)]
pub struct PipelineDescriptor {
    name: String,
    passes: Vec<String>,
}

pub struct DescriptorView {
    pub name: Seq<char>,
    pub passes: Seq<Seq<char>>,
}

impl View for PipelineDescriptor {
    type V = DescriptorView;

    closed spec fn view(&self) -> DescriptorView {
        DescriptorView { name: self.name@, passes: names_view(self.passes@) }
    }
}

impl PipelineDescriptor {
    /// A pipeline with no passes yet.
    pub fn new(name: &str) -> (r: PipelineDescriptor)
        ensures
            r@ == (DescriptorView { name: name@, passes: Seq::empty() }),
    {
        let r = PipelineDescriptor { name: name.to_string(), passes: Vec::new() };
        proof {
            assert(names_view(r.passes@) =~= Seq::<Seq<char>>::empty());
        }
        r
    }

    /// Appends a pass to the pipeline.
    pub fn pass(self, pass: &str) -> (r: PipelineDescriptor)
        ensures
            r@ == (DescriptorView { passes: self@.passes.push(pass@), ..self@ }),
    {
        let mut passes = self.passes;
        let ghost before = passes@;
        passes.push(pass.to_string());
        proof {
            assert(names_view(passes@) =~= names_view(before).push(pass@));
        }
        PipelineDescriptor { name: self.name, passes }
    }

    pub fn name(&self) -> (r: &str)
        ensures
            r@ == self@.name,
    {
        self.name.as_str()
    }

    pub fn passes(&self) -> (r: &[String])
        ensures
            names_view(r@) == self@.passes,
    {
        self.passes.as_slice()
    }

    pub fn clone_descriptor(&self) -> (r: PipelineDescriptor)
        ensures
            r@ == self@,
    {
        PipelineDescriptor { name: self.name.clone(), passes: clone_strings(&self.passes) }
    }
}

pub open spec fn descriptor_views(s: Seq<PipelineDescriptor>) -> Seq<DescriptorView> {
    s.map_values(|d: PipelineDescriptor| d@)
}

/// The pipelines of a sequence of descriptors, keyed by name.
pub open spec fn pipeline_map(s: Seq<DescriptorView>) -> Map<Seq<char>, DescriptorView> {
    Map::new(
        |k: Seq<char>| exists|i: int| 0 <= i < s.len() && (#[trigger] s[i]).name == k,
        |k: Seq<char>| s[choose|i: int| 0 <= i < s.len() && (#[trigger] s[i]).name == k],
    )
}

pub open spec fn names_distinct(s: Seq<DescriptorView>) -> bool {
    forall|i: int, j: int| 0 <= i < j < s.len() ==> (#[trigger] s[i]).name != (#[trigger] s[j]).name
}

pub proof fn lemma_pipeline_at(s: Seq<DescriptorView>, i: int)
    requires
        names_distinct(s),
        0 <= i < s.len(),
    ensures
        pipeline_map(s).contains_key(s[i].name),
        pipeline_map(s)[s[i].name] == s[i],
{
    let k = s[i].name;
    assert(pipeline_map(s).dom().contains(k));
    let j = choose|j: int| 0 <= j < s.len() && (#[trigger] s[j]).name == k;
    if j < i {
        assert(s[j].name != s[i].name);
    } else if i < j {
        assert(s[i].name != s[j].name);
    }
}

/// What registering the pipeline `d` with the pipelines `m` gives: `m` with `d` under its
/// name, or the error for an invalid or taken name.
pub open spec fn pipeline_registration(m: Map<Seq<char>, DescriptorView>, d: DescriptorView) -> Result<
    Map<Seq<char>, DescriptorView>,
    RegistryErrorView,
> {
    if !is_name_text(d.name) {
        Err(RegistryErrorView::InvalidName { kind: "pipeline"@, name: d.name })
    } else if m.contains_key(d.name) {
        Err(RegistryErrorView::DuplicatePipeline(d.name))
    } else {
        Ok(m.insert(d.name, d))
    }
}

/// Registered pipelines, keyed by name.
#[derive(Debug)]
pub struct PipelineRegistry {
    pipelines: Vec<PipelineDescriptor>,
}

impl View for PipelineRegistry {
    type V = Map<Seq<char>, DescriptorView>;

    closed spec fn view(&self) -> Map<Seq<char>, DescriptorView> {
        pipeline_map(descriptor_views(self.pipelines@))
    }
}

impl PipelineRegistry {
    #[verifier::type_invariant]
    spec fn inv(self) -> bool {
        names_distinct(descriptor_views(self.pipelines@))
    }

    pub fn new() -> (r: PipelineRegistry)
        ensures
            r@ == Map::<Seq<char>, DescriptorView>::empty(),
    {
        let r = PipelineRegistry { pipelines: Vec::new() };
        proof {
            assert(pipeline_map(descriptor_views(r.pipelines@)) =~= Map::<Seq<char>, DescriptorView>::empty());
        }
        r
    }

    /// Position of the pipeline named `name`.
    fn position(&self, name: &str) -> (r: Option<usize>)
        ensures
            match r {
                Some(i) => i < self.pipelines@.len() && self.pipelines@[i as int]@.name == name@,
                None => !self@.contains_key(name@),
            },
    {
        let key = name.to_string();
        let mut i: usize = 0;
        while i < self.pipelines.len()
            invariant
                0 <= i <= self.pipelines@.len(),
                key@ == name@,
                forall|k: int| 0 <= k < i ==> (#[trigger] self.pipelines@[k])@.name != name@,
            decreases self.pipelines@.len() - i,
        {
            if self.pipelines[i].name == key {
                return Some(i);
            }
            i = i + 1;
        }
        proof {
            let s = descriptor_views(self.pipelines@);
            if self@.contains_key(name@) {
                let k = choose|k: int| 0 <= k < s.len() && (#[trigger] s[k]).name == name@;
                assert(self.pipelines@[k]@.name == name@);
            }
        }
        None
    }

    /// Registers a pipeline under its name. The name must be a valid registry name and not
    /// registered yet.
    pub fn register(&mut self, pipeline: PipelineDescriptor) -> (r: Result<(), RegistryError>)
        ensures
            pipeline_registration(old(self)@, pipeline@) == match r {
                Ok(()) => Ok(final(self)@),
                Err(e) => Err::<Map<Seq<char>, DescriptorView>, RegistryErrorView>(e@),
            },
            match r {
                Ok(()) => {
                    &&& is_name_text(pipeline@.name)
                    &&& !old(self)@.contains_key(pipeline@.name)
                    &&& final(self)@ == old(self)@.insert(pipeline@.name, pipeline@)
                },
                Err(e) => {
                    &&& final(self)@ == old(self)@
                    &&& if !is_name_text(pipeline@.name) {
                        e@ == RegistryErrorView::InvalidName { kind: "pipeline"@, name: pipeline@.name }
                    } else {
                        &&& old(self)@.contains_key(pipeline@.name)
                        &&& e@ == RegistryErrorView::DuplicatePipeline(pipeline@.name)
                    }
                },
            },
    {
        proof {
            use_type_invariant(&*self);
        }
        if !is_valid_registry_name(pipeline.name()) {
            return Err(RegistryError::InvalidName { kind: "pipeline", name: pipeline.name.clone() });
        }
        match self.position(pipeline.name()) {
            Some(i) => {
                proof {
                    let s = descriptor_views(self.pipelines@);
                    assert(s[i as int].name == pipeline@.name);
                }
                return Err(RegistryError::DuplicatePipeline(pipeline.name.clone()));
            },
            None => {},
        }
        let ghost old_views = descriptor_views(self.pipelines@);
        let ghost d = pipeline@;
        let mut pipelines = Vec::new();
        std::mem::swap(&mut pipelines, &mut self.pipelines);
        pipelines.push(pipeline);
        proof {
            let s = descriptor_views(pipelines@);
            assert(s =~= old_views.push(d));
            assert forall|i: int, j: int| 0 <= i < j < s.len() implies (#[trigger] s[i]).name
                != (#[trigger] s[j]).name by {
                if j == s.len() - 1 {
                    assert(old_views[i].name != d.name) by {
                        if old_views[i].name == d.name {
                            assert(pipeline_map(old_views).dom().contains(d.name));
                        }
                    }
                } else {
                    assert(old_views[i].name != old_views[j].name);
                }
            }
            assert forall|k: Seq<char>| #[trigger] pipeline_map(s).contains_key(k) <==> pipeline_map(
                old_views,
            ).insert(d.name, d).contains_key(k) by {
                if pipeline_map(s).contains_key(k) {
                    let i = choose|i: int| 0 <= i < s.len() && (#[trigger] s[i]).name == k;
                    if i < old_views.len() {
                        assert(old_views[i].name == k);
                    }
                }
                if pipeline_map(old_views).contains_key(k) {
                    let i = choose|i: int| 0 <= i < old_views.len() && (#[trigger] old_views[i]).name
                        == k;
                    assert(s[i].name == k);
                }
                if k == d.name {
                    assert(s[s.len() - 1].name == k);
                }
            }
            assert forall|k: Seq<char>| #[trigger] pipeline_map(s).contains_key(k) implies pipeline_map(
                s,
            )[k] == pipeline_map(old_views).insert(d.name, d)[k] by {
                let i = choose|i: int| 0 <= i < s.len() && (#[trigger] s[i]).name == k;
                lemma_pipeline_at(s, i);
                if i < old_views.len() {
                    lemma_pipeline_at(old_views, i);
                }
            }
            assert(pipeline_map(s) =~= pipeline_map(old_views).insert(d.name, d));
        }
        self.pipelines = pipelines;
        Ok(())
    }

    /// The pipeline registered under `name`.
    pub fn get(&self, name: &str) -> (r: Option<&PipelineDescriptor>)
        ensures
            match r {
                Some(d) => self@.contains_key(name@) && d@ == self@[name@],
                None => !self@.contains_key(name@),
            },
    {
        proof {
            use_type_invariant(self);
        }
        match self.position(name) {
            Some(i) => {
                proof {
                    lemma_pipeline_at(descriptor_views(self.pipelines@), i as int);
                }
                Some(&self.pipelines[i])
            },
            None => None,
        }
    }

    /// Builds the pass manager of a pipeline: its passes in order. Fails with `MissingPipeline`
    /// when no pipeline has the name, else with `MissingPass` for the first of its passes that
    /// is not registered.
    pub fn build(&self, name: &str, passes: &PassRegistry) -> (r: Result<PassManager, RegistryError>)
        ensures
            match r {
                Ok(m) => {
                    &&& self@.contains_key(name@)
                    &&& m@.passes == self@[name@].passes
                    &&& m@.verify_each
                    &&& forall|k: int|
                        0 <= k < self@[name@].passes.len() ==> passes@.contains(
                            #[trigger] self@[name@].passes[k],
                        )
                },
                Err(e) => if !self@.contains_key(name@) {
                    e@ == RegistryErrorView::MissingPipeline(name@)
                } else {
                    exists|k: int|
                        0 <= k < self@[name@].passes.len() && !passes@.contains(
                            #[trigger] self@[name@].passes[k],
                        ) && (forall|j: int|
                            0 <= j < k ==> passes@.contains(#[trigger] self@[name@].passes[j]))
                            && e@ == RegistryErrorView::MissingPass(self@[name@].passes[k])
                },
            },
    {
        let descriptor = match self.get(name) {
            Some(d) => d,
            None => {
                return Err(RegistryError::MissingPipeline(name.to_string()));
            },
        };
        let mut manager = PassManager::new();
        let ghost ps = descriptor@.passes;
        let mut i: usize = 0;
        while i < descriptor.passes.len()
            invariant
                0 <= i <= descriptor.passes@.len(),
                ps == names_view(descriptor.passes@),
                self@.contains_key(name@),
                ps == self@[name@].passes,
                manager@.passes == ps.subrange(0, i as int),
                manager@.verify_each,
                forall|j: int| 0 <= j < i ==> passes@.contains(#[trigger] ps[j]),
            decreases descriptor.passes@.len() - i,
        {
            match passes.create(descriptor.passes[i].as_str()) {
                Ok(pass) => {
                    manager.add_boxed_pass(pass.as_str());
                    proof {
                        assert(manager@.passes =~= ps.subrange(0, i + 1));
                    }
                },
                Err(e) => {
                    proof {
                        assert(ps[i as int] == descriptor.passes@[i as int]@);
                        assert(!passes@.contains(ps[i as int]));
                        assert(e@ == RegistryErrorView::MissingPass(ps[i as int]));
                        assert(ps == self@[name@].passes);
                        assert(forall|j: int|
                            0 <= j < i ==> passes@.contains(#[trigger] self@[name@].passes[j]));
                    }
                    return Err(e);
                },
            }
            i = i + 1;
        }
        proof {
            assert(manager@.passes =~= ps);
        }
        Ok(manager)
    }

    /// The names of the registered pipelines, each once.
    pub fn names(&self) -> (r: Vec<String>)
        ensures
            names_view(r@).to_set() == self@.dom(),
            names_view(r@).no_duplicates(),
    {
        proof {
            use_type_invariant(self);
        }
        let mut r: Vec<String> = Vec::new();
        let ghost s = descriptor_views(self.pipelines@);
        for i in 0..self.pipelines.len()
            invariant
                s == descriptor_views(self.pipelines@),
                names_distinct(s),
                names_view(r@) == s.subrange(0, i as int).map_values(|d: DescriptorView| d.name),
        {
            r.push(self.pipelines[i].name.clone());
            proof {
                assert(s.subrange(0, i + 1).map_values(|d: DescriptorView| d.name) =~= s.subrange(
                    0,
                    i as int,
                ).map_values(|d: DescriptorView| d.name).push(s[i as int].name));
                assert(names_view(r@) =~= s.subrange(0, i + 1).map_values(
                    |d: DescriptorView| d.name,
                ));
            }
        }
        proof {
            let ns = names_view(r@);
            assert(s.subrange(0, s.len() as int) =~= s);
            assert forall|k: Seq<char>| ns.to_set().contains(k) <==> self@.dom().contains(k) by {
                if ns.contains(k) {
                    let i = choose|i: int| 0 <= i < ns.len() && ns[i] == k;
                    assert(s[i].name == k);
                }
                if self@.dom().contains(k) {
                    let i = choose|i: int| 0 <= i < s.len() && (#[trigger] s[i]).name == k;
                    assert(ns[i] == k);
                }
            }
            assert(ns.to_set() =~= self@.dom());
            assert forall|i: int, j: int| 0 <= i < ns.len() && 0 <= j < ns.len() && i != j implies ns[i]
                != ns[j] by {
                if i < j {
                    assert(s[i].name != s[j].name);
                } else {
                    assert(s[j].name != s[i].name);
                }
            }
        }
        r
    }
}

impl Default for PipelineRegistry {
    fn default() -> (r: PipelineRegistry)
        ensures
            r@ == Map::<Seq<char>, DescriptorView>::empty(),
    {
        PipelineRegistry::new()
    }
}

} // verus!
