use vstd::prelude::*;

use super::compiler::extension_check;
use super::error::RegistryErrorView;
use super::pass::pass_registration;
use super::pipeline::{pipeline_registration, DescriptorView};
use crate::names::is_name_text;
use crate::planning::edge::EdgeView;
use crate::planning::registry::{edge_registration, has_edge};

verus! {

/// A pass name registers once: registering it again is refused as a duplicate, and the
/// names already there stay.
pub proof fn law_pass_registers_once(names: Set<Seq<char>>, name: Seq<char>)
    requires
        pass_registration(names, name) is Ok,
    ensures
        ({
            let after = pass_registration(names, name)->Ok_0;
            &&& after.contains(name)
            &&& names.subset_of(after)
            &&& pass_registration(after, name) == Err::<Set<Seq<char>>, RegistryErrorView>(
                RegistryErrorView::DuplicatePass(name),
            )
        }),
{
}

/// A registered pipeline is found under its name, unchanged; registering a pipeline of the
/// same name again is refused, and the other pipelines are untouched.
pub proof fn law_pipeline_lookup_after_register(m: Map<Seq<char>, DescriptorView>, d: DescriptorView, other: DescriptorView)
    requires
        pipeline_registration(m, d) is Ok,
        other.name == d.name,
    ensures
        ({
            let after = pipeline_registration(m, d)->Ok_0;
            &&& after.contains_key(d.name)
            &&& after[d.name] == d
            &&& forall|k: Seq<char>| k != d.name ==> (after.contains_key(k) == m.contains_key(k) && (m.contains_key(k) ==> after[k] == m[k]))
            &&& pipeline_registration(after, other) is Err
        }),
{
}

/// An extension registers once: once its name is recorded, the check refuses it.
pub proof fn law_extension_registers_once(names: Set<Seq<char>>, name: Seq<char>)
    ensures
        extension_check(names.insert(name), name) == Err::<(), RegistryErrorView>(
            RegistryErrorView::DuplicateExtension(name),
        ),
        extension_check(names, name) is Ok <==> !names.contains(name),
{
}

/// A registered conversion edge is the last edge, found by its name, and an edge of the same
/// name is refused afterwards whatever else it holds.
pub proof fn law_edge_registers_once(s: Seq<EdgeView>, e: EdgeView, other: EdgeView)
    requires
        edge_registration(s, e) is Ok,
        other.name == e.name,
    ensures
        ({
            let after = edge_registration(s, e)->Ok_0;
            &&& after.len() == s.len() + 1
            &&& after[s.len() as int] == e
            &&& has_edge(after, e.name)
            &&& edge_registration(after, other) is Err
        }),
{
    let after = s.push(e);
    assert(after[s.len() as int].name == e.name);
}

/// The pipelines after registering `ds` in order, starting from `m`: each registration that
/// succeeds adds its pipeline, and one that fails leaves the pipelines as they were.
pub open spec fn after_registrations(m: Map<Seq<char>, DescriptorView>, ds: Seq<DescriptorView>) -> Map<
    Seq<char>,
    DescriptorView,
>
    decreases ds.len(),
{
    if ds.len() == 0 {
        m
    } else {
        let before = after_registrations(m, ds.drop_last());
        match pipeline_registration(before, ds.last()) {
            Ok(after) => after,
            Err(_) => before,
        }
    }
}

/// After any sequence of pipeline registrations on an empty registry, a name is found exactly
/// when it is a valid name that some registration carried, and what is found under it is the
/// first pipeline registered with that name: later registrations of the name never replace it.
pub proof fn law_pipeline_lookup_after_registrations(ds: Seq<DescriptorView>, n: Seq<char>)
    ensures
        after_registrations(Map::empty(), ds).contains_key(n) <==> (is_name_text(n) && exists|k: int|
            0 <= k < ds.len() && (#[trigger] ds[k]).name == n),
        forall|k: int|
            0 <= k < ds.len() && (#[trigger] ds[k]).name == n && is_name_text(n) && (forall|j: int|
                0 <= j < k ==> ds[j].name != n) ==> after_registrations(Map::empty(), ds)[n] == ds[k],
    decreases ds.len(),
{
    if ds.len() > 0 {
        let init = ds.drop_last();
        law_pipeline_lookup_after_registrations(init, n);
        let before = after_registrations(Map::empty(), init);
        let last = ds.last();
        if exists|k: int| 0 <= k < init.len() && (#[trigger] init[k]).name == n {
            let k = choose|k: int| 0 <= k < init.len() && (#[trigger] init[k]).name == n;
            assert(ds[k].name == n);
        }
        if exists|k: int| 0 <= k < ds.len() && (#[trigger] ds[k]).name == n {
            let k = choose|k: int| 0 <= k < ds.len() && (#[trigger] ds[k]).name == n;
            if k < init.len() {
                assert(init[k].name == n);
            }
        }
        assert forall|k: int|
            0 <= k < ds.len() && (#[trigger] ds[k]).name == n && is_name_text(n) && (forall|j: int|
                0 <= j < k ==> ds[j].name != n) implies after_registrations(Map::empty(), ds)[n] == ds[k] by {
            if k < init.len() {
                assert(init[k] == ds[k]);
                assert forall|j: int| 0 <= j < k implies init[j].name != n by {
                    assert(init[j] == ds[j]);
                }
            } else {
                assert forall|j: int| 0 <= j < init.len() implies init[j].name != n by {
                    assert(init[j] == ds[j]);
                }
            }
        }
    }
}

} // verus!
