//! What the rebuild plans promise: the jobs of each step, their
//! directories, and the step each kind of cache belongs to.
use crate::rebuild::{
    compartment_bounded_job, compartment_job, compartments_plan, hull_plan, rebuild_plan,
    windage_plan, CacheKind, JobSpec, RebuildStage,
};
use crate::registry::{lemma_registry_shape, registry_spec};
use vstd::prelude::*;

verus! {

/// A job's kind decides the step it belongs to: the displacement caches
/// belong to the hull, the compartments' caches to the compartments, and
/// the windage cache, and only it, to the windage.
pub open spec fn stage_matches_kind(j: JobSpec) -> bool {
    &&& (j.stage == RebuildStage::Hull <==> (j.kind == CacheKind::Displacement || j.kind
        == CacheKind::DisplacementBounded))
    &&& (j.stage == RebuildStage::Compartments <==> (j.kind is Compartment || j.kind is CompartmentBounded))
    &&& (j.stage == RebuildStage::Windage <==> j.kind == CacheKind::Windage)
}

/// The hull's rebuild is the displacement cache, in the cache directory,
/// then the displacement cache between frames, under `disp_bounded`; the
/// windage rebuild is the windage cache alone, in the cache directory; in
/// each, every job belongs to the step of its kind.
pub proof fn lemma_hull_and_windage_plans()
    ensures
        hull_plan().len() == 2,
        hull_plan()[0].kind == CacheKind::Displacement,
        hull_plan()[0].dir == Seq::<Seq<char>>::empty(),
        hull_plan()[1].kind == CacheKind::DisplacementBounded,
        hull_plan()[1].dir == seq!["disp_bounded"@],
        hull_plan()[0].context == "displacement rebuld_and_save"@,
        hull_plan()[1].context == "displacement_bounded rebuld_and_save"@,
        windage_plan().len() == 1,
        windage_plan()[0].context == "windage_area rebuld_and_save"@,
        windage_plan()[0].kind == CacheKind::Windage,
        windage_plan()[0].dir == Seq::<Seq<char>>::empty(),
        forall|k: int| 0 <= k < hull_plan().len() ==> stage_matches_kind(#[trigger] hull_plan()[k]),
        forall|k: int|
            0 <= k < windage_plan().len() ==> stage_matches_kind(#[trigger] windage_plan()[k]),
{
}

/// The compartments' rebuild has two jobs per compartment: first the cache
/// of compartment `i`, at position `i`, then its cache between frames, at
/// position `n + i`, both saved under `compartments/<name of i>`.
pub proof fn lemma_compartments_plan_positions(names: Seq<Seq<char>>)
    ensures
        compartments_plan(names).len() == 2 * names.len(),
        forall|i: int|
            0 <= i < names.len() ==> {
                &&& (#[trigger] compartments_plan(names)[i]).kind == CacheKind::Compartment(
                    i as usize,
                )
                &&& compartments_plan(names)[i].dir == seq!["compartments"@, names[i]]
                &&& compartments_plan(names)[i].context == "compartment rebuld_and_save"@
            },
        forall|i: int|
            0 <= i < names.len() ==> {
                &&& (#[trigger] compartments_plan(names)[names.len() + i]).kind
                    == CacheKind::CompartmentBounded(i as usize)
                &&& compartments_plan(names)[names.len() + i].dir == seq![
                    "compartments"@,
                    names[i],
                ]
                &&& compartments_plan(names)[names.len() + i].context
                    == "compartments_bounded rebuld_and_save"@
            },
{
    lemma_compartments_plan_len(names);
    assert forall|i: int| 0 <= i < names.len() implies {
        &&& (#[trigger] compartments_plan(names)[i]).kind == CacheKind::Compartment(i as usize)
        &&& compartments_plan(names)[i].dir == seq!["compartments"@, names[i]]
        &&& compartments_plan(names)[i].context == "compartment rebuld_and_save"@
    } by {
        lemma_compartments_plan_at(names, i);
    }
    assert forall|i: int| 0 <= i < names.len() implies {
        &&& (#[trigger] compartments_plan(names)[names.len() + i]).kind
            == CacheKind::CompartmentBounded(i as usize)
        &&& compartments_plan(names)[names.len() + i].dir == seq!["compartments"@, names[i]]
        &&& compartments_plan(names)[names.len() + i].context
            == "compartments_bounded rebuld_and_save"@
    } by {
        lemma_compartments_plan_at(names, names.len() + i);
    }
}

/// Every job of the compartments' rebuild belongs to the step of its kind.
pub proof fn lemma_compartments_plan_stages(names: Seq<Seq<char>>)
    ensures
        forall|k: int|
            0 <= k < compartments_plan(names).len() ==> stage_matches_kind(
                #[trigger] compartments_plan(names)[k],
            ),
{
    lemma_compartments_plan_len(names);
    assert forall|k: int| 0 <= k < compartments_plan(names).len() implies stage_matches_kind(
        #[trigger] compartments_plan(names)[k],
    ) by {
        lemma_compartments_plan_at(names, k);
    }
}

/// The names being distinct, the caches of distinct compartments go to
/// distinct directories.
pub proof fn lemma_compartments_plan_dirs_distinct(names: Seq<Seq<char>>)
    requires
        forall|i: int, j: int| 0 <= i < j < names.len() ==> names[i] != names[j],
    ensures
        forall|i: int, j: int|
            0 <= i < names.len() && 0 <= j < names.len() && i != j ==> (
            #[trigger] compartments_plan(names)[i]).dir != (
            #[trigger] compartments_plan(names)[j]).dir,
{
    lemma_compartments_plan_len(names);
    assert forall|i: int, j: int| 0 <= i < names.len() && 0 <= j < names.len() && i != j implies (
    #[trigger] compartments_plan(names)[i]).dir != (#[trigger] compartments_plan(names)[j]).dir by {
        lemma_compartments_plan_at(names, i);
        lemma_compartments_plan_at(names, j);
        assert(compartments_plan(names)[i].dir[1] == names[i]);
        assert(compartments_plan(names)[j].dir[1] == names[j]);
        if i < j {
            assert(names[i] != names[j]);
        } else {
            assert(names[j] != names[i]);
        }
    }
}

/// A full rebuild has `3 + 2 n` jobs for `n` compartments: the hull's two
/// jobs first, then the compartments' jobs, then, last whatever the number
/// of compartments, the windage job in the cache directory; every job
/// belongs to the step of its kind.
pub proof fn lemma_rebuild_plan(names: Seq<Seq<char>>)
    ensures
        rebuild_plan(names).len() == 3 + 2 * names.len(),
        rebuild_plan(names).subrange(0, 2) == hull_plan(),
        rebuild_plan(names).subrange(2, 2 + 2 * names.len() as int) == compartments_plan(names),
        rebuild_plan(names).last().kind == CacheKind::Windage,
        rebuild_plan(names).last().stage == RebuildStage::Windage,
        rebuild_plan(names).last().dir == Seq::<Seq<char>>::empty(),
        forall|k: int|
            0 <= k < rebuild_plan(names).len() ==> stage_matches_kind(
                #[trigger] rebuild_plan(names)[k],
            ),
{
    lemma_hull_and_windage_plans();
    lemma_compartments_plan_len(names);
    lemma_compartments_plan_stages(names);
    let p = rebuild_plan(names);
    let h = hull_plan();
    let c = compartments_plan(names);
    let w = windage_plan();
    assert(p == h + c + w);
    assert(p.subrange(0, 2) =~= h);
    assert(p.subrange(2, 2 + 2 * names.len() as int) =~= c);
    assert(p.last() == w[0]);
    assert forall|k: int| 0 <= k < p.len() implies stage_matches_kind(#[trigger] p[k]) by {
        if k < 2 {
            assert(p[k] == h[k]);
        } else if k < 2 + c.len() {
            assert(p[k] == c[k - 2]);
        } else {
            assert(p[k] == w[k - 2 - c.len()]);
        }
    }
}

/// The caches of the compartments of a directory listing go to distinct
/// directories: the registry's names are distinct.
pub proof fn lemma_registered_compartments_have_own_dirs(stems: Seq<Option<Seq<char>>>)
    requires
        stems.len() <= usize::MAX,
    ensures
        ({
            let names = registry_spec(stems).map_values(|e: (Seq<char>, usize)| e.0);
            forall|i: int, j: int|
                0 <= i < names.len() && 0 <= j < names.len() && i != j ==> (
                #[trigger] compartments_plan(names)[i]).dir != (
                #[trigger] compartments_plan(names)[j]).dir
        }),
{
    lemma_registry_shape(stems);
    let e = registry_spec(stems);
    let names = e.map_values(|e: (Seq<char>, usize)| e.0);
    assert forall|i: int, j: int| 0 <= i < j < names.len() implies names[i] != names[j] by {
        assert(e[i].0 != e[j].0);
    }
    lemma_compartments_plan_dirs_distinct(names);
}

proof fn lemma_compartments_plan_len(names: Seq<Seq<char>>)
    ensures
        compartments_plan(names).len() == 2 * names.len(),
{
}

proof fn lemma_compartments_plan_at(names: Seq<Seq<char>>, k: int)
    requires
        0 <= k < 2 * names.len(),
    ensures
        k < names.len() ==> compartments_plan(names)[k] == compartment_job(names, k),
        k >= names.len() ==> compartments_plan(names)[k] == compartment_bounded_job(
            names,
            k - names.len(),
        ),
{
    let n = names.len();
    let first = Seq::new(n, |i: int| compartment_job(names, i));
    let second = Seq::new(n, |i: int| compartment_bounded_job(names, i));
    assert(compartments_plan(names) == first + second);
    if k < n {
        assert((first + second)[k] == first[k]);
    } else {
        assert((first + second)[k] == second[k - n]);
    }
}

} // verus!
