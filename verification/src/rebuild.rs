//! The order in which the caches of a ship model are rebuilt, and the run
//! that goes through them: each job is handed out in turn, and the first
//! job that fails ends the run with its error.
use crate::registry::{registry_entries, registry_get_index, registry_len};
use indexmap::IndexMap;
use vstd::prelude::*;

verus! {

/// The step of a full rebuild that a job belongs to.
#[derive(Clone, Copy, Debug, PartialEq, Eq, Structural)]
pub enum RebuildStage {
    /// The caches of the hull.
    Hull,
    /// The caches of the compartments.
    Compartments,
    /// The windage cache.
    Windage,
}

/// Which cache a job rebuilds.
#[derive(Clone, Copy, Debug, PartialEq, Eq, Structural)]
pub enum CacheKind {
    /// The displacement cache of the hull.
    Displacement,
    /// The displacement cache of the hull between frames.
    DisplacementBounded,
    /// The cache of the compartment at this position of the registry.
    Compartment(usize),
    /// The cache between frames of the compartment at this position of the
    /// registry.
    CompartmentBounded(usize),
    /// The windage cache of the hull.
    Windage,
}

/// One cache to rebuild and save.
pub struct CacheJob {
    /// The step of the rebuild it belongs to.
    pub stage: RebuildStage,
    /// The cache.
    pub kind: CacheKind,
    /// The directory it is saved in, as components below the model's cache
    /// directory.
    pub dir: Vec<String>,
    /// What a failure of this job is reported as.
    pub context: String,
}

/// A job as a mathematical value.
pub struct JobSpec {
    pub stage: RebuildStage,
    pub kind: CacheKind,
    pub dir: Seq<Seq<char>>,
    pub context: Seq<char>,
}

impl View for CacheJob {
    type V = JobSpec;

    open spec fn view(&self) -> JobSpec {
        JobSpec {
            stage: self.stage,
            kind: self.kind,
            dir: self.dir@.map_values(|s: String| s@),
            context: self.context@,
        }
    }
}

/// The jobs of a list, as values.
pub open spec fn jobs_view(jobs: Seq<CacheJob>) -> Seq<JobSpec> {
    jobs.map_values(|j: CacheJob| j@)
}

/// The names of the registered compartments, in the registry's order.
pub open spec fn registry_names(m: IndexMap<String, usize>) -> Seq<Seq<char>> {
    registry_entries(m).map_values(|e: (Seq<char>, usize)| e.0)
}

/// The hull's jobs: the displacement cache, saved in the cache directory
/// itself, then the displacement cache between frames, under
/// `disp_bounded`.
pub open spec fn hull_plan() -> Seq<JobSpec> {
    seq![
        JobSpec {
            stage: RebuildStage::Hull,
            kind: CacheKind::Displacement,
            dir: seq![],
            context: "displacement rebuld_and_save"@,
        },
        JobSpec {
            stage: RebuildStage::Hull,
            kind: CacheKind::DisplacementBounded,
            dir: seq!["disp_bounded"@],
            context: "displacement_bounded rebuld_and_save"@,
        },
    ]
}

/// The compartments' jobs: the cache of every compartment, in the
/// registry's order, each under `compartments/<name>`; then, in the same
/// order, every compartment's cache between frames, in the same directory.
pub open spec fn compartments_plan(names: Seq<Seq<char>>) -> Seq<JobSpec> {
    Seq::new(names.len(), |i: int| compartment_job(names, i)) + Seq::new(
        names.len(),
        |i: int| compartment_bounded_job(names, i),
    )
}

/// The job of the cache of compartment `i`, under `compartments/<name>`.
pub open spec fn compartment_job(names: Seq<Seq<char>>, i: int) -> JobSpec {
    JobSpec {
        stage: RebuildStage::Compartments,
        kind: CacheKind::Compartment(i as usize),
        dir: seq!["compartments"@, names[i]],
        context: "compartment rebuld_and_save"@,
    }
}

/// The job of the cache between frames of compartment `i`, under
/// `compartments/<name>`.
pub open spec fn compartment_bounded_job(names: Seq<Seq<char>>, i: int) -> JobSpec {
    JobSpec {
        stage: RebuildStage::Compartments,
        kind: CacheKind::CompartmentBounded(i as usize),
        dir: seq!["compartments"@, names[i]],
        context: "compartments_bounded rebuld_and_save"@,
    }
}

/// The windage job, saved in the cache directory itself.
pub open spec fn windage_plan() -> Seq<JobSpec> {
    seq![
        JobSpec {
            stage: RebuildStage::Windage,
            kind: CacheKind::Windage,
            dir: seq![],
            context: "windage_area rebuld_and_save"@,
        },
    ]
}

/// A full rebuild: the hull, then the compartments, then the windage.
pub open spec fn rebuild_plan(names: Seq<Seq<char>>) -> Seq<JobSpec> {
    hull_plan() + compartments_plan(names) + windage_plan()
}

fn job(stage: RebuildStage, kind: CacheKind, dir: Vec<String>, context: &str) -> (j: CacheJob)
    ensures
        j@ == (JobSpec {
            stage: stage,
            kind: kind,
            dir: dir@.map_values(|s: String| s@),
            context: context@,
        }),
{
    CacheJob { stage, kind, dir, context: String::from_str(context) }
}

/// The jobs of the hull's rebuild.
pub fn hull_jobs() -> (jobs: Vec<CacheJob>)
    ensures
        jobs_view(jobs@) == hull_plan(),
        jobs@.len() == 2,
        jobs@[0].kind == CacheKind::Displacement,
        jobs@[1].kind == CacheKind::DisplacementBounded,
{
    proof {
        crate::rebuild_laws::lemma_hull_and_windage_plans();
    }
    let mut jobs: Vec<CacheJob> = Vec::new();
    let no_dir: Vec<String> = Vec::new();
    assert(no_dir@.map_values(|s: String| s@) =~= Seq::<Seq<char>>::empty());
    jobs.push(
        job(RebuildStage::Hull, CacheKind::Displacement, no_dir, "displacement rebuld_and_save"),
    );
    let mut bounded_dir: Vec<String> = Vec::new();
    bounded_dir.push(String::from_str("disp_bounded"));
    assert(bounded_dir@.map_values(|s: String| s@) =~= seq!["disp_bounded"@]);
    jobs.push(
        job(
            RebuildStage::Hull,
            CacheKind::DisplacementBounded,
            bounded_dir,
            "displacement_bounded rebuld_and_save",
        ),
    );
    assert(jobs_view(jobs@) =~= hull_plan());
    jobs
}

/// The jobs of the windage rebuild.
pub fn windage_jobs() -> (jobs: Vec<CacheJob>)
    ensures
        jobs_view(jobs@) == windage_plan(),
        jobs@.len() == 1,
        jobs@[0].kind == CacheKind::Windage,
        jobs@[0].stage == RebuildStage::Windage,
        jobs@[0].dir@.len() == 0,
{
    proof {
        crate::rebuild_laws::lemma_hull_and_windage_plans();
    }
    let mut jobs: Vec<CacheJob> = Vec::new();
    let no_dir: Vec<String> = Vec::new();
    assert(no_dir@.map_values(|s: String| s@) =~= Seq::<Seq<char>>::empty());
    jobs.push(job(RebuildStage::Windage, CacheKind::Windage, no_dir, "windage_area rebuld_and_save"));
    assert(jobs_view(jobs@) =~= windage_plan());
    jobs
}

fn compartment_dir(name: &String) -> (dir: Vec<String>)
    ensures
        dir@.map_values(|s: String| s@) == seq!["compartments"@, name@],
{
    let mut dir: Vec<String> = Vec::new();
    dir.push(String::from_str("compartments"));
    dir.push(name.clone());
    assert(dir@.map_values(|s: String| s@) =~= seq!["compartments"@, name@]);
    dir
}

/// The jobs of the compartments' rebuild, for the compartments of
/// `registry`.
pub fn compartment_jobs(registry: &IndexMap<String, usize>) -> (jobs: Vec<CacheJob>)
    ensures
        jobs_view(jobs@) == compartments_plan(registry_names(*registry)),
        jobs@.len() == 2 * registry_entries(*registry).len(),
{
    let ghost names = registry_names(*registry);
    let n = registry_len(registry);
    let mut jobs: Vec<CacheJob> = Vec::new();
    let mut i: usize = 0;
    while i < n
        invariant
            n == names.len(),
            names == registry_names(*registry),
            i <= n,
            jobs_view(jobs@) =~= compartments_plan(names).take(i as int),
        decreases n - i,
    {
        let (name, _) = registry_get_index(registry, i).unwrap();
        assert(name@ == names[i as int]);
        let ghost before = jobs@;
        jobs.push(
            job(
                RebuildStage::Compartments,
                CacheKind::Compartment(i),
                compartment_dir(name),
                "compartment rebuld_and_save",
            ),
        );
        assert(jobs_view(jobs@) =~= jobs_view(before).push(jobs@[i as int]@));
        i += 1;
    }
    let mut i: usize = 0;
    while i < n
        invariant
            n == names.len(),
            names == registry_names(*registry),
            i <= n,
            jobs_view(jobs@) =~= compartments_plan(names).take(n + i),
        decreases n - i,
    {
        let (name, _) = registry_get_index(registry, i).unwrap();
        assert(name@ == names[i as int]);
        let ghost before = jobs@;
        jobs.push(
            job(
                RebuildStage::Compartments,
                CacheKind::CompartmentBounded(i),
                compartment_dir(name),
                "compartments_bounded rebuld_and_save",
            ),
        );
        assert(jobs_view(jobs@) =~= jobs_view(before).push(jobs@[(n + i) as int]@));
        i += 1;
    }
    assert(compartments_plan(names).take(n + n) =~= compartments_plan(names));
    jobs
}

/// The jobs of a full rebuild of the model's caches.
pub fn rebuild_jobs(registry: &IndexMap<String, usize>) -> (jobs: Vec<CacheJob>)
    ensures
        jobs_view(jobs@) == rebuild_plan(registry_names(*registry)),
        jobs@.len() == 3 + 2 * registry_entries(*registry).len(),
        jobs@.last().kind == CacheKind::Windage,
        jobs@.last().stage == RebuildStage::Windage,
{
    proof {
        crate::rebuild_laws::lemma_rebuild_plan(registry_names(*registry));
    }
    let mut jobs = hull_jobs();
    let mut compartments = compartment_jobs(registry);
    let mut windage = windage_jobs();
    jobs.append(&mut compartments);
    jobs.append(&mut windage);
    assert(jobs_view(jobs@) =~= rebuild_plan(registry_names(*registry)));
    jobs
}

/// Why a rebuild stopped: the step and the job that failed, and the error
/// that the job reported.
pub struct JobFailure {
    /// The step of the rebuild the failed job belongs to.
    pub stage: RebuildStage,
    /// What the failed job is reported as.
    pub context: String,
    /// The error the job reported.
    pub message: String,
}

/// A rebuild in progress: the jobs handed out so far all succeeded; the run
/// ends when every job has succeeded or when one fails.
pub struct RebuildRun {
    jobs: Vec<CacheJob>,
    done: usize,
    failure: Option<(usize, String)>,
}

/// A run as a mathematical value: its jobs, how many succeeded, and where
/// it failed, with the error reported there.
pub struct RunSpec {
    pub jobs: Seq<JobSpec>,
    pub done: nat,
    pub failure: Option<(nat, Seq<char>)>,
}

impl View for RebuildRun {
    type V = RunSpec;

    closed spec fn view(&self) -> RunSpec {
        RunSpec {
            jobs: jobs_view(self.jobs@),
            done: self.done as nat,
            failure: match self.failure {
                Some((i, m)) => Some((i as nat, m@)),
                None => None,
            },
        }
    }
}

/// A run that has not started yet.
pub open spec fn run_start(jobs: Seq<JobSpec>) -> RunSpec {
    RunSpec { jobs, done: 0, failure: None }
}

/// Whether the run is over: a job failed, or every job succeeded.
pub open spec fn run_finished(r: RunSpec) -> bool {
    r.failure is Some || r.done >= r.jobs.len()
}

/// The run after the job handed out last reported `outcome`: a success
/// moves on to the next job, a failure ends the run at this job. A finished
/// run ignores what it is told.
pub open spec fn run_report(r: RunSpec, outcome: Result<(), Seq<char>>) -> RunSpec {
    if run_finished(r) {
        r
    } else {
        match outcome {
            Ok(()) => RunSpec { done: r.done + 1, ..r },
            Err(m) => RunSpec { failure: Some((r.done, m)), ..r },
        }
    }
}

/// The run after the jobs reported `outcomes`, one after the other.
pub open spec fn run_after(r: RunSpec, outcomes: Seq<Result<(), Seq<char>>>) -> RunSpec
    decreases outcomes.len(),
{
    if outcomes.len() == 0 {
        r
    } else {
        run_report(run_after(r, outcomes.drop_last()), outcomes.last())
    }
}

impl RebuildRun {
    #[verifier::type_invariant]
    spec fn well_formed(self) -> bool {
        &&& self.done <= self.jobs.len()
        &&& self.failure matches Some((i, _)) ==> i == self.done && self.done < self.jobs.len()
    }

    /// Starts a run of `jobs`.
    pub fn new(jobs: Vec<CacheJob>) -> (r: RebuildRun)
        ensures
            r@ == run_start(jobs_view(jobs@)),
    {
        RebuildRun { jobs, done: 0, failure: None }
    }

    /// The job to perform next, or `None` when the run is over.
    pub fn next_job(&self) -> (j: Option<&CacheJob>)
        ensures
            match j {
                Some(job) => !run_finished(self@) && job@ == self@.jobs[self@.done as int],
                None => run_finished(self@),
            },
    {
        proof {
            use_type_invariant(self);
        }
        if self.failure.is_none() && self.done < self.jobs.len() {
            Some(&self.jobs[self.done])
        } else {
            None
        }
    }

    /// Records the outcome of the job handed out last.
    pub fn report(&mut self, outcome: Result<(), String>)
        ensures
            final(self)@ == run_report(
                old(self)@,
                match outcome {
                    Ok(()) => Ok(()),
                    Err(m) => Err(m@),
                },
            ),
    {
        proof {
            use_type_invariant(&*self);
        }
        if self.failure.is_none() && self.done < self.jobs.len() {
            match outcome {
                Ok(()) => {
                    self.done = self.done + 1;
                },
                Err(m) => {
                    self.failure = Some((self.done, m));
                },
            }
        }
    }

    /// How the run ended: `None` while jobs remain, `Ok` when every job
    /// succeeded, or the failure of the job that stopped it.
    pub fn result(&self) -> (res: Option<Result<(), JobFailure>>)
        ensures
            match res {
                None => !run_finished(self@),
                Some(Ok(())) => self@.failure is None && self@.done == self@.jobs.len(),
                Some(Err(f)) => self@.failure matches Some((i, m)) && i < self@.jobs.len()
                    && f.stage == self@.jobs[i as int].stage && f.context@
                    == self@.jobs[i as int].context && f.message@ == m,
            },
    {
        proof {
            use_type_invariant(self);
        }
        match &self.failure {
            Some((i, m)) => {
                let job = &self.jobs[*i];
                Some(
                    Err(
                        JobFailure {
                            stage: job.stage,
                            context: job.context.clone(),
                            message: m.clone(),
                        },
                    ),
                )
            },
            None => {
                if self.done < self.jobs.len() {
                    None
                } else {
                    Some(Ok(()))
                }
            },
        }
    }
}

/// A run performs its jobs in order and stops at the first failure: after
/// the jobs reported `outcomes`, if the first `k` outcomes are successes,
/// `k` jobs are done; a run whose outcomes are all successes, one per job,
/// succeeds; and a failure at position `p` ends the run there, with that
/// error, whatever is reported afterwards.
pub proof fn lemma_run_stops_at_first_failure(
    jobs: Seq<JobSpec>,
    outcomes: Seq<Result<(), Seq<char>>>,
)
    ensures
        (forall|i: int| 0 <= i < outcomes.len() ==> #[trigger] outcomes[i] is Ok)
            ==> run_after(run_start(jobs), outcomes).failure is None
            && run_after(run_start(jobs), outcomes).done == if outcomes.len() <= jobs.len() {
            outcomes.len()
        } else {
            jobs.len()
        },
        forall|p: int|
            0 <= p < outcomes.len() && p < jobs.len() && #[trigger] outcomes[p] is Err && (forall|
                i: int,
            | 0 <= i < p ==> #[trigger] outcomes[i] is Ok) ==> run_after(run_start(jobs), outcomes)
                == (RunSpec { jobs, done: p as nat, failure: Some((p as nat, outcomes[p]->Err_0)) }),
    decreases outcomes.len(),
{
    if outcomes.len() > 0 {
        let prev = outcomes.drop_last();
        lemma_run_stops_at_first_failure(jobs, prev);
        lemma_run_keeps_jobs(jobs, prev);
        assert(forall|i: int| 0 <= i < prev.len() ==> prev[i] == outcomes[i]);
        assert forall|p: int|
            0 <= p < outcomes.len() && p < jobs.len() && #[trigger] outcomes[p] is Err && (forall|
                i: int,
            | 0 <= i < p ==> #[trigger] outcomes[i] is Ok) implies run_after(
            run_start(jobs),
            outcomes,
        ) == (RunSpec { jobs, done: p as nat, failure: Some((p as nat, outcomes[p]->Err_0)) }) by {
            if p < prev.len() {
                assert(prev[p] is Err);
                assert(forall|i: int| 0 <= i < p ==> #[trigger] prev[i] is Ok);
            } else {
                assert(forall|i: int| 0 <= i < prev.len() ==> #[trigger] prev[i] is Ok);
            }
        }
        if forall|i: int| 0 <= i < outcomes.len() ==> #[trigger] outcomes[i] is Ok {
            assert(forall|i: int| 0 <= i < prev.len() ==> #[trigger] prev[i] is Ok);
        }
    }
}

proof fn lemma_run_keeps_jobs(jobs: Seq<JobSpec>, outcomes: Seq<Result<(), Seq<char>>>)
    ensures
        run_after(run_start(jobs), outcomes).jobs == jobs,
    decreases outcomes.len(),
{
    if outcomes.len() > 0 {
        lemma_run_keeps_jobs(jobs, outcomes.drop_last());
    }
}

} // verus!
