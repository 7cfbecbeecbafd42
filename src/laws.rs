//! Properties of whole builds, stated over the builder's model.
use crate::asset::has_key;
use crate::graph::{lemma_link, paths_distinct, BuilderView};
use vstd::prelude::*;

verus! {

/// The canonical paths of the modules, in identity order.
pub open spec fn filenames(s: Seq<crate::asset::AssetView>) -> Seq<Seq<char>> {
    s.map_values(|a: crate::asset::AssetView| a.filename)
}

/// A finished build has one module per distinct canonical path it met, the
/// entry module has identity 0, identities follow arena order, every
/// specifier of every module is bound, and every binding names a module of
/// the graph.
pub proof fn lemma_finished_graph(v: BuilderView)
    requires
        v.done(),
    ensures
        v.assets[0].id == 0,
        forall|i: int| 0 <= i < v.assets.len() ==> (#[trigger] v.assets[i]).id == i,
        v.assets.len() == filenames(v.assets).to_set().len(),
        forall|i: int, d: int| 0 <= i < v.assets.len() && 0 <= d < v.assets[i].dependencies.len()
            ==> has_key(v.assets[i].mapping, #[trigger] v.assets[i].dependencies[d]),
        forall|i: int, k: int| 0 <= i < v.assets.len() && 0 <= k < v.assets[i].mapping.len()
            ==> (#[trigger] v.assets[i].mapping[k]).1 < v.assets.len(),
{
    let f = filenames(v.assets);
    assert(f.no_duplicates()) by {
        assert forall|i: int, j: int| 0 <= i < f.len() && 0 <= j < f.len() && i != j implies f[i] != f[j] by {
            assert(f[i] == v.assets[i].filename);
            assert(f[j] == v.assets[j].filename);
        }
    }
    f.unique_seq_to_set();
    assert forall|i: int, d: int| 0 <= i < v.assets.len() && 0 <= d < v.assets[i].dependencies.len()
        implies has_key(v.assets[i].mapping, #[trigger] v.assets[i].dependencies[d]) by {
        assert(crate::graph::bound_upto(v.assets[i], v.assets[i].dependencies.len()));
    }
    assert forall|i: int, k: int| 0 <= i < v.assets.len() && 0 <= k < v.assets[i].mapping.len()
        implies (#[trigger] v.assets[i].mapping[k]).1 < v.assets.len() by {
        assert(crate::graph::tables_closed(v.assets));
    }
}

/// A module reached along several import paths has a single identity: the
/// lookup by canonical path, through which every specifier is bound, finds
/// exactly the module registered under it.
pub proof fn lemma_one_identity_per_path(v: BuilderView, i: int)
    requires
        v.wf(),
        0 <= i < v.assets.len(),
    ensures
        v.index_of(v.assets[i].filename) == Some(i as nat),
{
    let c = choose|c: int| 0 <= c < v.assets.len() && v.assets[c].filename == v.assets[i].filename;
    assert(paths_distinct(v.assets));
    assert(c == i);
}

/// Two bindings whose targets share a canonical path carry the same
/// identity.
pub proof fn lemma_shared_target(v: BuilderView, i: int, k: int, j: int, l: int)
    requires
        v.wf(),
        0 <= i < v.assets.len(),
        0 <= j < v.assets.len(),
        0 <= k < v.assets[i].mapping.len(),
        0 <= l < v.assets[j].mapping.len(),
        v.assets[v.assets[i].mapping[k].1 as int].filename == v.assets[v.assets[j].mapping[l].1 as int].filename,
    ensures
        v.assets[i].mapping[k].1 == v.assets[j].mapping[l].1,
{
    assert(crate::graph::tables_closed(v.assets));
    assert(v.assets[i].mapping[k].1 < v.assets.len());
    assert(v.assets[j].mapping[l].1 < v.assets.len());
    assert(paths_distinct(v.assets));
}

/// Resolving a specifier to a module already registered (as in an import
/// cycle) creates no module and moves the build strictly forward, so a
/// cycle cannot make the build revisit a module.
pub proof fn lemma_cycle_edge_advances(v: BuilderView, id: nat)
    requires
        v.wf(),
        v.pending(),
        id < v.assets.len(),
    ensures
        v.link(id).wf(),
        v.link(id).assets.len() == v.assets.len(),
        v.cur < v.link(id).cur || (v.cur == v.link(id).cur && v.dep < v.link(id).dep),
        v.link(id).assets[v.cur as int].mapping.len() > 0,
{
    lemma_link(v, id);
    crate::asset::lemma_table_insert(v.current().mapping, v.specifier(), id);
}

} // verus!
