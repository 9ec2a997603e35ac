use ship_cache::rebuild::{
    compartment_jobs, hull_jobs, rebuild_jobs, windage_jobs, CacheKind, RebuildRun, RebuildStage,
};
use ship_cache::registry::register_compartments;

fn stems(names: &[Option<&str>]) -> Vec<Option<String>> {
    names.iter().map(|n| n.map(|s| s.to_string())).collect()
}

#[test]
fn registry_keeps_first_place_and_last_position() {
    let m = register_compartments(&stems(&[Some("tank_1"), None, Some("tank_2"), Some("tank_1")]));
    assert_eq!(m.len(), 2);
    assert_eq!(m.get_index(0), Some((&"tank_1".to_string(), &3usize)));
    assert_eq!(m.get_index(1), Some((&"tank_2".to_string(), &2usize)));
}

#[test]
fn registry_of_an_empty_listing_is_empty() {
    assert_eq!(register_compartments(&Vec::new()).len(), 0);
    assert_eq!(register_compartments(&stems(&[None, None])).len(), 0);
}

#[test]
fn hull_and_windage_jobs() {
    let hull = hull_jobs();
    assert_eq!(hull.len(), 2);
    assert_eq!(hull[0].kind, CacheKind::Displacement);
    assert!(hull[0].dir.is_empty());
    assert_eq!(hull[0].context, "displacement rebuld_and_save");
    assert_eq!(hull[1].kind, CacheKind::DisplacementBounded);
    assert_eq!(hull[1].dir, vec!["disp_bounded".to_string()]);
    assert_eq!(hull[1].context, "displacement_bounded rebuld_and_save");
    let windage = windage_jobs();
    assert_eq!(windage.len(), 1);
    assert_eq!(windage[0].stage, RebuildStage::Windage);
    assert_eq!(windage[0].context, "windage_area rebuld_and_save");
}

#[test]
fn compartment_jobs_follow_the_registry() {
    let m = register_compartments(&stems(&[Some("b"), Some("a")]));
    let jobs = compartment_jobs(&m);
    let kinds: Vec<CacheKind> = jobs.iter().map(|j| j.kind).collect();
    assert_eq!(
        kinds,
        vec![
            CacheKind::Compartment(0),
            CacheKind::Compartment(1),
            CacheKind::CompartmentBounded(0),
            CacheKind::CompartmentBounded(1)
        ]
    );
    assert_eq!(jobs[0].dir, vec!["compartments".to_string(), "b".to_string()]);
    assert_eq!(jobs[3].dir, vec!["compartments".to_string(), "a".to_string()]);
    assert_eq!(jobs[1].context, "compartment rebuld_and_save");
    assert_eq!(jobs[2].context, "compartments_bounded rebuld_and_save");
}

#[test]
fn full_rebuild_runs_hull_then_compartments_then_windage() {
    let m = register_compartments(&stems(&[Some("a")]));
    let jobs = rebuild_jobs(&m);
    let stages: Vec<RebuildStage> = jobs.iter().map(|j| j.stage).collect();
    assert_eq!(
        stages,
        vec![
            RebuildStage::Hull,
            RebuildStage::Hull,
            RebuildStage::Compartments,
            RebuildStage::Compartments,
            RebuildStage::Windage
        ]
    );
}

#[test]
fn run_that_succeeds_everywhere() {
    let m = register_compartments(&stems(&[Some("a")]));
    let mut run = RebuildRun::new(rebuild_jobs(&m));
    let mut performed = 0;
    while run.next_job().is_some() {
        assert!(run.result().is_none());
        run.report(Ok(()));
        performed += 1;
    }
    assert_eq!(performed, 5);
    assert!(matches!(run.result(), Some(Ok(()))));
}

#[test]
fn run_stops_at_the_first_failure() {
    let m = register_compartments(&stems(&[Some("a"), Some("b")]));
    let mut run = RebuildRun::new(rebuild_jobs(&m));
    run.report(Ok(()));
    run.report(Ok(()));
    assert_eq!(run.next_job().unwrap().kind, CacheKind::Compartment(0));
    run.report(Err("disk full".to_string()));
    assert!(run.next_job().is_none());
    run.report(Ok(()));
    match run.result() {
        Some(Err(f)) => {
            assert_eq!(f.stage, RebuildStage::Compartments);
            assert_eq!(f.context, "compartment rebuld_and_save");
            assert_eq!(f.message, "disk full");
        }
        _ => panic!("the run must have failed"),
    }
}

#[test]
fn run_of_no_jobs_succeeds_at_once() {
    let run = RebuildRun::new(Vec::new());
    assert!(run.next_job().is_none());
    assert!(matches!(run.result(), Some(Ok(()))));
}
