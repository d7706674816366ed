use vstd::prelude::*;

use crate::phase::{index_of_phase, next_after, phase_after, phase_at, phase_at_index, phase_index, JobPhase, PhaseRunState};

verus! {

/// The run state of each phase of a job; a phase that was never touched has
/// no entry.
#[derive(Clone, Copy, Debug, PartialEq, Eq, Structural)]
pub struct PhaseStatusMap {
    pub understanding: Option<PhaseRunState>,
    pub planning: Option<PhaseRunState>,
    pub scripting: Option<PhaseRunState>,
    pub voicing: Option<PhaseRunState>,
    pub rendering: Option<PhaseRunState>,
}

impl PhaseStatusMap {
    /// Entry of phase `p`.
    pub open spec fn status(self, p: JobPhase) -> Option<PhaseRunState> {
        match p {
            JobPhase::Understanding => self.understanding,
            JobPhase::Planning => self.planning,
            JobPhase::Scripting => self.scripting,
            JobPhase::Voicing => self.voicing,
            JobPhase::Rendering => self.rendering,
        }
    }

    /// The map with the entry of `p` set to `s`.
    pub open spec fn with(self, p: JobPhase, s: PhaseRunState) -> PhaseStatusMap {
        match p {
            JobPhase::Understanding => PhaseStatusMap { understanding: Some(s), ..self },
            JobPhase::Planning => PhaseStatusMap { planning: Some(s), ..self },
            JobPhase::Scripting => PhaseStatusMap { scripting: Some(s), ..self },
            JobPhase::Voicing => PhaseStatusMap { voicing: Some(s), ..self },
            JobPhase::Rendering => PhaseStatusMap { rendering: Some(s), ..self },
        }
    }

    /// A map with no entries.
    pub fn new() -> (m: PhaseStatusMap)
        ensures
            forall|p: JobPhase| #[trigger] m.status(p) is None,
    {
        PhaseStatusMap {
            understanding: None,
            planning: None,
            scripting: None,
            voicing: None,
            rendering: None,
        }
    }

    /// Entry of phase `p`.
    pub fn get(&self, p: &JobPhase) -> (r: Option<PhaseRunState>)
        ensures
            r == self.status(*p),
    {
        match p {
            JobPhase::Understanding => self.understanding,
            JobPhase::Planning => self.planning,
            JobPhase::Scripting => self.scripting,
            JobPhase::Voicing => self.voicing,
            JobPhase::Rendering => self.rendering,
        }
    }

    /// Sets the entry of `p` to `s`; the other entries stay.
    pub fn insert(&mut self, p: JobPhase, s: PhaseRunState)
        ensures
            *final(self) == old(self).with(p, s),
    {
        match p {
            JobPhase::Understanding => self.understanding = Some(s),
            JobPhase::Planning => self.planning = Some(s),
            JobPhase::Scripting => self.scripting = Some(s),
            JobPhase::Voicing => self.voicing = Some(s),
            JobPhase::Rendering => self.rendering = Some(s),
        }
    }
}

/// A phase counts as finished once it is done or skipped.
pub open spec fn is_finished(s: Option<PhaseRunState>) -> bool {
    s == Some(PhaseRunState::Done) || s == Some(PhaseRunState::Skipped)
}

pub open spec fn finished_flag(s: Option<PhaseRunState>) -> nat {
    if is_finished(s) { 1 } else { 0 }
}

/// Number of finished phases.
pub open spec fn finished_count(m: PhaseStatusMap) -> nat {
    finished_flag(m.understanding) + finished_flag(m.planning) + finished_flag(m.scripting)
        + finished_flag(m.voicing) + finished_flag(m.rendering)
}

/// Phase `p` may start: it has not started, finished or been skipped, and
/// every phase before it is finished.
pub open spec fn runnable(m: PhaseStatusMap, p: JobPhase) -> bool {
    &&& !(m.status(p) == Some(PhaseRunState::Done) || m.status(p) == Some(PhaseRunState::Running)
        || m.status(p) == Some(PhaseRunState::Skipped))
    &&& forall|q: JobPhase| phase_index(q) < phase_index(p) ==> is_finished(#[trigger] m.status(q))
}

/// An error recorded on a job.
pub struct JobError {
    pub code: String,
    pub message: String,
}

impl Clone for JobError {
    fn clone(&self) -> (r: Self)
        ensures
            r == *self,
    {
        JobError { code: self.code.clone(), message: self.message.clone() }
    }
}

/// A pipeline job: where it stands in the pipeline and the state of each
/// phase. Its progress is `finished_phases` out of the five phases.
pub struct PipelineJob {
    pub id: String,
    pub phase: JobPhase,
    pub phase_status: PhaseStatusMap,
    pub finished_phases: u64,
    pub error: Option<JobError>,
    pub created_at: String,
    pub updated_at: String,
}

fn copy_error(e: &Option<JobError>) -> (r: Option<JobError>)
    ensures
        r == *e,
{
    match e {
        Some(x) => Some(x.clone()),
        None => None,
    }
}

impl Clone for PipelineJob {
    fn clone(&self) -> (r: Self)
        ensures
            r == *self,
    {
        PipelineJob {
            id: self.id.clone(),
            phase: self.phase,
            phase_status: self.phase_status,
            finished_phases: self.finished_phases,
            error: copy_error(&self.error),
            created_at: self.created_at.clone(),
            updated_at: self.updated_at.clone(),
        }
    }
}

/// A job as `PipelineJob::new` makes it: at the first phase, no phase
/// touched, no progress, no error and no timestamps.
pub open spec fn is_fresh_job(job: PipelineJob) -> bool {
    &&& job.phase == JobPhase::Understanding
    &&& (forall|p: JobPhase| #[trigger] job.phase_status.status(p) is None)
    &&& job.finished_phases == 0
    &&& job.error is None
    &&& job.created_at@.len() == 0
    &&& job.updated_at@.len() == 0
}

impl PipelineJob {
    /// A fresh job: at the first phase, no phase touched, no progress, no
    /// error, and no timestamps yet.
    pub fn new(id: String) -> (job: PipelineJob)
        ensures
            job.id == id,
            is_fresh_job(job),
    {
        PipelineJob {
            id,
            phase: JobPhase::Understanding,
            phase_status: PhaseStatusMap::new(),
            finished_phases: 0,
            error: None,
            created_at: String::new(),
            updated_at: String::new(),
        }
    }
}

/// The job once phase `p` has started at `updated_at`.
pub open spec fn started_job(job: PipelineJob, p: JobPhase, updated_at: String) -> PipelineJob {
    PipelineJob {
        phase: p,
        phase_status: job.phase_status.with(p, PhaseRunState::Running),
        error: None,
        updated_at: updated_at,
        ..job
    }
}

/// Statuses once running phase `p` is done: `p` done, the next phase (if
/// any) pending.
pub open spec fn completed_statuses(m: PhaseStatusMap, p: JobPhase) -> PhaseStatusMap {
    match phase_after(p) {
        Some(n) => m.with(p, PhaseRunState::Done).with(n, PhaseRunState::Pending),
        None => m.with(p, PhaseRunState::Done),
    }
}

/// The job once running phase `p` is done at `updated_at`: the job moves on
/// to the next phase (it stays at the last one), and its progress counts the
/// finished phases.
pub open spec fn completed_job(job: PipelineJob, p: JobPhase, updated_at: String) -> PipelineJob {
    PipelineJob {
        phase: match phase_after(p) {
            Some(n) => n,
            None => p,
        },
        phase_status: completed_statuses(job.phase_status, p),
        finished_phases: finished_count(completed_statuses(job.phase_status, p)) as u64,
        updated_at: updated_at,
        ..job
    }
}

/// The job once failed phase `p` is queued again at `updated_at`.
pub open spec fn retried_job(job: PipelineJob, p: JobPhase, updated_at: String) -> PipelineJob {
    PipelineJob {
        phase_status: job.phase_status.with(p, PhaseRunState::Pending),
        error: None,
        updated_at: updated_at,
        ..job
    }
}

/// The job once phase `p` is skipped at `updated_at`.
pub open spec fn skipped_job(job: PipelineJob, p: JobPhase, updated_at: String) -> PipelineJob {
    PipelineJob {
        phase_status: job.phase_status.with(p, PhaseRunState::Skipped),
        updated_at: updated_at,
        ..job
    }
}

/// What starting phase `p` at `t` makes of `job`.
pub open spec fn after_start(job: PipelineJob, p: JobPhase, t: String) -> PipelineJob {
    if runnable(job.phase_status, p) { started_job(job, p, t) } else { job }
}

/// What completing phase `p` at `t` makes of `job`.
pub open spec fn after_complete(job: PipelineJob, p: JobPhase, t: String) -> PipelineJob {
    if job.phase_status.status(p) == Some(PhaseRunState::Running) { completed_job(job, p, t) } else { job }
}

/// What retrying phase `p` at `t` makes of `job`.
pub open spec fn after_retry(job: PipelineJob, p: JobPhase, t: String) -> PipelineJob {
    if job.phase_status.status(p) == Some(PhaseRunState::Failed) { retried_job(job, p, t) } else { job }
}

/// What skipping phase `p` at `t` makes of `job`.
pub open spec fn after_skip(job: PipelineJob, p: JobPhase, t: String) -> PipelineJob {
    if is_finished(job.phase_status.status(p)) { job } else { skipped_job(job, p, t) }
}

fn is_finished_state(s: Option<PhaseRunState>) -> (r: bool)
    ensures
        r == is_finished(s),
{
    match s {
        Some(PhaseRunState::Done) | Some(PhaseRunState::Skipped) => true,
        _ => false,
    }
}

/// Whether phase `phase` of `job` may start now.
pub fn is_phase_runnable(job: &PipelineJob, phase: &JobPhase) -> (r: bool)
    ensures
        r == runnable(job.phase_status, *phase),
{
    let idx = index_of_phase(*phase);
    match job.phase_status.get(phase) {
        Some(PhaseRunState::Done) | Some(PhaseRunState::Running) | Some(PhaseRunState::Skipped) => {
            return false;
        },
        _ => {},
    }
    let mut i: u64 = 0;
    while i < idx
        invariant
            idx == phase_index(*phase),
            i <= idx,
            forall|q: JobPhase| phase_index(q) < i ==> is_finished(#[trigger] job.phase_status.status(q)),
        decreases idx - i,
    {
        let q = phase_at_index(i);
        if !is_finished_state(job.phase_status.get(&q)) {
            return false;
        }
        proof {
            assert forall|r: JobPhase| phase_index(r) < i + 1 implies is_finished(#[trigger] job.phase_status.status(r)) by {
                if phase_index(r) == i {
                    assert(r == q);
                }
            }
        }
        i = i + 1;
    }
    true
}

/// Starts phase `phase` at `updated_at` if it is runnable; otherwise the job
/// comes back unchanged.
pub fn start_phase_state(job: &PipelineJob, phase: &JobPhase, updated_at: String) -> (r: PipelineJob)
    ensures
        r == after_start(*job, *phase, updated_at),
{
    if !is_phase_runnable(job, phase) {
        return job.clone();
    }
    let mut new_status = job.phase_status;
    new_status.insert(*phase, PhaseRunState::Running);
    PipelineJob {
        id: job.id.clone(),
        phase: *phase,
        phase_status: new_status,
        finished_phases: job.finished_phases,
        error: None,
        created_at: job.created_at.clone(),
        updated_at,
    }
}

fn finished_phase_count(m: &PhaseStatusMap) -> (r: u64)
    ensures
        r == finished_count(*m),
{
    let mut count: u64 = 0;
    if is_finished_state(m.understanding) { count = count + 1; }
    if is_finished_state(m.planning) { count = count + 1; }
    if is_finished_state(m.scripting) { count = count + 1; }
    if is_finished_state(m.voicing) { count = count + 1; }
    if is_finished_state(m.rendering) { count = count + 1; }
    count
}

/// Marks running phase `phase` done at `updated_at` and moves the job on to
/// the next phase, which becomes pending; the progress is recounted. A phase
/// that is not running leaves the job unchanged. The artifact path is not
/// recorded.
pub fn complete_phase_state(
    job: &PipelineJob,
    phase: &JobPhase,
    artifact_path: Option<String>,
    updated_at: String,
) -> (r: PipelineJob)
    ensures
        r == after_complete(*job, *phase, updated_at),
{
    let _ = artifact_path;
    if job.phase_status.get(phase) != Some(PhaseRunState::Running) {
        return job.clone();
    }
    let mut new_status = job.phase_status;
    new_status.insert(*phase, PhaseRunState::Done);
    let next_phase = next_after(phase);
    let new_phase = match next_phase {
        Some(n) => n,
        None => *phase,
    };
    match next_phase {
        Some(n) => new_status.insert(n, PhaseRunState::Pending),
        None => {},
    }
    let done_count = finished_phase_count(&new_status);
    PipelineJob {
        id: job.id.clone(),
        phase: new_phase,
        phase_status: new_status,
        finished_phases: done_count,
        error: copy_error(&job.error),
        created_at: job.created_at.clone(),
        updated_at,
    }
}

/// Queues failed phase `phase` again at `updated_at` and clears the job's
/// error; a phase that has not failed leaves the job unchanged.
pub fn retry_phase_state(job: &PipelineJob, phase: &JobPhase, updated_at: String) -> (r: PipelineJob)
    ensures
        r == after_retry(*job, *phase, updated_at),
{
    if job.phase_status.get(phase) != Some(PhaseRunState::Failed) {
        return job.clone();
    }
    let mut new_status = job.phase_status;
    new_status.insert(*phase, PhaseRunState::Pending);
    PipelineJob {
        id: job.id.clone(),
        phase: job.phase,
        phase_status: new_status,
        finished_phases: job.finished_phases,
        error: None,
        created_at: job.created_at.clone(),
        updated_at,
    }
}

/// Skips phase `phase` at `updated_at`; a phase that is already done or
/// skipped leaves the job unchanged.
pub fn skip_phase_state(job: &PipelineJob, phase: &JobPhase, updated_at: String) -> (r: PipelineJob)
    ensures
        r == after_skip(*job, *phase, updated_at),
{
    if is_finished_state(job.phase_status.get(phase)) {
        return job.clone();
    }
    let mut new_status = job.phase_status;
    new_status.insert(*phase, PhaseRunState::Skipped);
    PipelineJob {
        id: job.id.clone(),
        phase: job.phase,
        phase_status: new_status,
        finished_phases: job.finished_phases,
        error: copy_error(&job.error),
        created_at: job.created_at.clone(),
        updated_at,
    }
}

/// No phase is running or done while a phase before it is unfinished.
pub open spec fn phases_in_order(m: PhaseStatusMap) -> bool {
    forall|p: JobPhase, q: JobPhase|
        (#[trigger] m.status(p) == Some(PhaseRunState::Running) || m.status(p) == Some(PhaseRunState::Done))
            && phase_index(q) < phase_index(p) ==> is_finished(#[trigger] m.status(q))
}

proof fn lemma_with_status(m: PhaseStatusMap, p: JobPhase, s: PhaseRunState, q: JobPhase)
    ensures
        m.with(p, s).status(q) == (if q == p { Some(s) } else { m.status(q) }),
{
}

/// Which phases may start: a phase may start exactly when it is untouched,
/// pending or failed, and every phase before it is done or skipped.
pub proof fn lemma_runnable_law(m: PhaseStatusMap, p: JobPhase)
    ensures
        runnable(m, p) ==> forall|q: JobPhase| phase_index(q) < phase_index(p) ==>
            #[trigger] m.status(q) == Some(PhaseRunState::Done) || m.status(q) == Some(PhaseRunState::Skipped),
        m.status(p) == Some(PhaseRunState::Done) ==> !runnable(m, p),
        m.status(p) == Some(PhaseRunState::Running) ==> !runnable(m, p),
        m.status(p) == Some(PhaseRunState::Skipped) ==> !runnable(m, p),
        (m.status(p) is None || m.status(p) == Some(PhaseRunState::Pending) || m.status(p) == Some(PhaseRunState::Failed))
            && (forall|q: JobPhase| phase_index(q) < phase_index(p) ==>
                #[trigger] m.status(q) == Some(PhaseRunState::Done) || m.status(q) == Some(PhaseRunState::Skipped))
            ==> runnable(m, p),
{
}

/// Starting a phase: where it may start, it is running, it becomes the
/// job's current phase, the job's error is cleared and the time recorded,
/// and nothing else changes; where it may not, the job is unchanged.
pub proof fn lemma_start_law(job: PipelineJob, p: JobPhase, t: String)
    ensures
        runnable(job.phase_status, p) ==> {
            let r = after_start(job, p, t);
            &&& r.phase == p
            &&& r.phase_status.status(p) == Some(PhaseRunState::Running)
            &&& forall|q: JobPhase| q != p ==> #[trigger] r.phase_status.status(q) == job.phase_status.status(q)
            &&& r.error is None
            &&& r.updated_at == t
            &&& r.id == job.id
            &&& r.finished_phases == job.finished_phases
            &&& r.created_at == job.created_at
        },
        !runnable(job.phase_status, p) ==> after_start(job, p, t) == job,
{
    if runnable(job.phase_status, p) {
        let r = after_start(job, p, t);
        assert forall|q: JobPhase| q != p implies #[trigger] r.phase_status.status(q) == job.phase_status.status(q) by {
            lemma_with_status(job.phase_status, p, PhaseRunState::Running, q);
        }
        lemma_with_status(job.phase_status, p, PhaseRunState::Running, p);
    }
}

/// Completing a phase: only a running phase is completed; it is then done,
/// the phase after it (if any) is pending and current, the other phases are
/// unchanged, the progress counts the done and skipped phases, and the time
/// is recorded. Completing a phase that is not running changes nothing.
pub proof fn lemma_complete_law(job: PipelineJob, p: JobPhase, t: String)
    ensures
        job.phase_status.status(p) != Some(PhaseRunState::Running) ==> after_complete(job, p, t) == job,
        job.phase_status.status(p) == Some(PhaseRunState::Running) ==> {
            let r = after_complete(job, p, t);
            &&& r.phase_status.status(p) == Some(PhaseRunState::Done)
            &&& r.phase == (match phase_after(p) {
                Some(n) => n,
                None => p,
            })
            &&& (phase_after(p) matches Some(n) ==> r.phase_status.status(n) == Some(PhaseRunState::Pending))
            &&& forall|q: JobPhase| q != p && Some(q) != phase_after(p) ==>
                #[trigger] r.phase_status.status(q) == job.phase_status.status(q)
            &&& r.finished_phases == finished_count(r.phase_status)
            &&& r.error == job.error
            &&& r.updated_at == t
            &&& r.id == job.id
        },
{
    if job.phase_status.status(p) == Some(PhaseRunState::Running) {
        let m = job.phase_status;
        let r = after_complete(job, p, t);
        lemma_with_status(m, p, PhaseRunState::Done, p);
        match phase_after(p) {
            Some(n) => {
                let m1 = m.with(p, PhaseRunState::Done);
                lemma_with_status(m1, n, PhaseRunState::Pending, n);
                lemma_with_status(m1, n, PhaseRunState::Pending, p);
                assert forall|q: JobPhase| q != p && Some(q) != phase_after(p) implies
                    #[trigger] r.phase_status.status(q) == job.phase_status.status(q) by {
                    lemma_with_status(m, p, PhaseRunState::Done, q);
                    lemma_with_status(m1, n, PhaseRunState::Pending, q);
                }
            },
            None => {
                assert forall|q: JobPhase| q != p && Some(q) != phase_after(p) implies
                    #[trigger] r.phase_status.status(q) == job.phase_status.status(q) by {
                    lemma_with_status(m, p, PhaseRunState::Done, q);
                }
            },
        }
    }
}

/// Retrying a phase: only a failed phase is retried; it becomes pending and
/// the job's error is cleared, the rest of the job stays and the time is
/// recorded. Retrying a phase that has not failed changes nothing.
pub proof fn lemma_retry_law(job: PipelineJob, p: JobPhase, t: String)
    ensures
        job.phase_status.status(p) != Some(PhaseRunState::Failed) ==> after_retry(job, p, t) == job,
        job.phase_status.status(p) == Some(PhaseRunState::Failed) ==> {
            let r = after_retry(job, p, t);
            &&& r.phase_status.status(p) == Some(PhaseRunState::Pending)
            &&& forall|q: JobPhase| q != p ==> #[trigger] r.phase_status.status(q) == job.phase_status.status(q)
            &&& r.phase == job.phase
            &&& r.error is None
            &&& r.updated_at == t
            &&& r.finished_phases == job.finished_phases
            &&& r.id == job.id
        },
{
    if job.phase_status.status(p) == Some(PhaseRunState::Failed) {
        let r = after_retry(job, p, t);
        lemma_with_status(job.phase_status, p, PhaseRunState::Pending, p);
        assert forall|q: JobPhase| q != p implies #[trigger] r.phase_status.status(q) == job.phase_status.status(q) by {
            lemma_with_status(job.phase_status, p, PhaseRunState::Pending, q);
        }
    }
}

/// Skipping a phase: a phase that is not done or skipped (untouched,
/// pending, running or failed) becomes skipped, the rest of the job stays
/// and the time is recorded; a done or skipped phase leaves the job
/// unchanged.
pub proof fn lemma_skip_law(job: PipelineJob, p: JobPhase, t: String)
    ensures
        (job.phase_status.status(p) == Some(PhaseRunState::Done)
            || job.phase_status.status(p) == Some(PhaseRunState::Skipped)) ==> after_skip(job, p, t) == job,
        !(job.phase_status.status(p) == Some(PhaseRunState::Done)
            || job.phase_status.status(p) == Some(PhaseRunState::Skipped)) ==> {
            let r = after_skip(job, p, t);
            &&& r.phase_status.status(p) == Some(PhaseRunState::Skipped)
            &&& forall|q: JobPhase| q != p ==> #[trigger] r.phase_status.status(q) == job.phase_status.status(q)
            &&& r.phase == job.phase
            &&& r.error == job.error
            &&& r.updated_at == t
            &&& r.finished_phases == job.finished_phases
            &&& r.id == job.id
        },
{
    if !(job.phase_status.status(p) == Some(PhaseRunState::Done)
        || job.phase_status.status(p) == Some(PhaseRunState::Skipped)) {
        let r = after_skip(job, p, t);
        lemma_with_status(job.phase_status, p, PhaseRunState::Skipped, p);
        assert forall|q: JobPhase| q != p implies #[trigger] r.phase_status.status(q) == job.phase_status.status(q) by {
            lemma_with_status(job.phase_status, p, PhaseRunState::Skipped, q);
        }
    }
}

/// How the progress count moves: a job with no phase touched has finished
/// none, and setting one phase's state changes the count by one exactly
/// where that phase goes from unfinished to done or skipped, or back.
pub proof fn lemma_finished_count_law(m: PhaseStatusMap, q: JobPhase, s: PhaseRunState)
    ensures
        (forall|p: JobPhase| #[trigger] m.status(p) is None) ==> finished_count(m) == 0,
        finished_count(m.with(q, s))
            + (if m.status(q) == Some(PhaseRunState::Done) || m.status(q) == Some(PhaseRunState::Skipped) { 1int } else { 0int })
            == finished_count(m)
            + (if s == PhaseRunState::Done || s == PhaseRunState::Skipped { 1int } else { 0int }),
        finished_count(m) <= 5,
{
    if forall|p: JobPhase| #[trigger] m.status(p) is None {
        assert(m.status(JobPhase::Understanding) is None);
        assert(m.status(JobPhase::Planning) is None);
        assert(m.status(JobPhase::Scripting) is None);
        assert(m.status(JobPhase::Voicing) is None);
        assert(m.status(JobPhase::Rendering) is None);
    }
}

/// In a job whose phases run in order, at most one phase is running.
pub proof fn lemma_single_running_phase(m: PhaseStatusMap, p: JobPhase, q: JobPhase)
    requires
        phases_in_order(m),
        m.status(p) == Some(PhaseRunState::Running),
        m.status(q) == Some(PhaseRunState::Running),
    ensures
        p == q,
{
    if phase_index(q) < phase_index(p) {
        assert(is_finished(m.status(q)));
    } else if phase_index(p) < phase_index(q) {
        assert(is_finished(m.status(p)));
    }
}

/// Starting, completing, retrying and skipping a phase all keep the phases
/// of a job in order: no phase runs or is done before the phases ahead of it
/// are finished.
#[verifier::spinoff_prover]
pub proof fn lemma_transitions_keep_order(job: PipelineJob, p: JobPhase, t: String)
    requires
        phases_in_order(job.phase_status),
    ensures
        phases_in_order(after_start(job, p, t).phase_status),
        phases_in_order(after_complete(job, p, t).phase_status),
        phases_in_order(after_retry(job, p, t).phase_status),
        phases_in_order(after_skip(job, p, t).phase_status),
{
    let m = job.phase_status;
    // start
    if runnable(m, p) {
        let m2 = m.with(p, PhaseRunState::Running);
        assert forall|a: JobPhase, b: JobPhase|
            (#[trigger] m2.status(a) == Some(PhaseRunState::Running) || m2.status(a) == Some(PhaseRunState::Done))
                && phase_index(b) < phase_index(a) implies is_finished(#[trigger] m2.status(b)) by {
            lemma_with_status(m, p, PhaseRunState::Running, a);
            lemma_with_status(m, p, PhaseRunState::Running, b);
            if a == p {
                assert(is_finished(m.status(b)));
            } else if b == p {
                // `a` runs or is done after the unfinished phase `p`
                assert(is_finished(m.status(p)));
            }
        }
    }
    // complete
    if m.status(p) == Some(PhaseRunState::Running) {
        let m1 = m.with(p, PhaseRunState::Done);
        assert forall|a: JobPhase, b: JobPhase|
            (#[trigger] m1.status(a) == Some(PhaseRunState::Running) || m1.status(a) == Some(PhaseRunState::Done))
                && phase_index(b) < phase_index(a) implies is_finished(#[trigger] m1.status(b)) by {
            lemma_with_status(m, p, PhaseRunState::Done, a);
            lemma_with_status(m, p, PhaseRunState::Done, b);
            if a == p {
                assert(is_finished(m.status(b)));
            } else if b == p {
                assert(is_finished(m.status(p)));
            }
        }
        match phase_after(p) {
            Some(n) => {
                let m2 = m1.with(n, PhaseRunState::Pending);
                assert forall|a: JobPhase, b: JobPhase|
                    (#[trigger] m2.status(a) == Some(PhaseRunState::Running) || m2.status(a) == Some(PhaseRunState::Done))
                        && phase_index(b) < phase_index(a) implies is_finished(#[trigger] m2.status(b)) by {
                    lemma_with_status(m1, n, PhaseRunState::Pending, a);
                    lemma_with_status(m1, n, PhaseRunState::Pending, b);
                    assert(m1.status(a) == Some(PhaseRunState::Running) || m1.status(a) == Some(PhaseRunState::Done));
                    if b == n {
                        // `a` lies after `n`, so after the phase `p` that was running
                        lemma_with_status(m, p, PhaseRunState::Done, a);
                        assert(phase_index(p) < phase_index(a));
                        assert(is_finished(m.status(p)));
                    }
                }
                assert(completed_statuses(m, p) == m2);
            },
            None => {
                assert(completed_statuses(m, p) == m1);
            },
        }
    }
    // retry
    if m.status(p) == Some(PhaseRunState::Failed) {
        let m2 = m.with(p, PhaseRunState::Pending);
        assert forall|a: JobPhase, b: JobPhase|
            (#[trigger] m2.status(a) == Some(PhaseRunState::Running) || m2.status(a) == Some(PhaseRunState::Done))
                && phase_index(b) < phase_index(a) implies is_finished(#[trigger] m2.status(b)) by {
            lemma_with_status(m, p, PhaseRunState::Pending, a);
            lemma_with_status(m, p, PhaseRunState::Pending, b);
            if b == p {
                assert(is_finished(m.status(p)));
            }
        }
    }
    // skip
    if !is_finished(m.status(p)) {
        let m2 = m.with(p, PhaseRunState::Skipped);
        assert forall|a: JobPhase, b: JobPhase|
            (#[trigger] m2.status(a) == Some(PhaseRunState::Running) || m2.status(a) == Some(PhaseRunState::Done))
                && phase_index(b) < phase_index(a) implies is_finished(#[trigger] m2.status(b)) by {
            lemma_with_status(m, p, PhaseRunState::Skipped, a);
            lemma_with_status(m, p, PhaseRunState::Skipped, b);
        }
    }
}

/// A fresh job can start its first phase and no other.
pub proof fn lemma_fresh_job_starts_first(job: PipelineJob, p: JobPhase)
    requires
        is_fresh_job(job),
    ensures
        runnable(job.phase_status, p) <==> p == JobPhase::Understanding,
{
    if p != JobPhase::Understanding {
        assert(job.phase_status.status(JobPhase::Understanding) is None);
        assert(phase_index(JobPhase::Understanding) < phase_index(p));
    }
}

/// Starting a phase twice is the same as starting it once: the second start
/// finds it running and changes nothing.
pub proof fn lemma_start_idempotent(job: PipelineJob, p: JobPhase, t1: String, t2: String)
    ensures
        after_start(after_start(job, p, t1), p, t2) == after_start(job, p, t1),
{
}

/// Skipping a phase twice is the same as skipping it once.
pub proof fn lemma_skip_idempotent(job: PipelineJob, p: JobPhase, t1: String, t2: String)
    ensures
        after_skip(after_skip(job, p, t1), p, t2) == after_skip(job, p, t1),
{
}

/// Completing a running phase of a job whose phases run in order opens the
/// next phase: it is pending, the job points at it, and it may start.
pub proof fn lemma_complete_opens_next(job: PipelineJob, p: JobPhase, t: String)
    requires
        phases_in_order(job.phase_status),
        job.phase_status.status(p) == Some(PhaseRunState::Running),
        phase_after(p) is Some,
    ensures
        ({
            let n = phase_after(p)->0;
            let done = after_complete(job, p, t);
            &&& done.phase == n
            &&& done.phase_status.status(p) == Some(PhaseRunState::Done)
            &&& done.phase_status.status(n) == Some(PhaseRunState::Pending)
            &&& runnable(done.phase_status, n)
        }),
{
    let n = phase_after(p)->0;
    let m = job.phase_status;
    let m1 = m.with(p, PhaseRunState::Done);
    let m2 = m1.with(n, PhaseRunState::Pending);
    assert(completed_statuses(m, p) == m2);
    assert forall|q: JobPhase| phase_index(q) < phase_index(n) implies is_finished(#[trigger] m2.status(q)) by {
        lemma_with_status(m1, n, PhaseRunState::Pending, q);
        lemma_with_status(m, p, PhaseRunState::Done, q);
        if q != p {
            assert(phase_index(q) < phase_index(p));
            assert(is_finished(m.status(q)));
        }
    }
}

/// Running the two phases without a review gate on a fresh job (start and
/// complete understanding, then planning) leaves both done, the job at
/// scripting, which is pending, with two phases finished.
pub proof fn lemma_auto_run_from_fresh(job: PipelineJob, t1: String, t2: String, t3: String, t4: String)
    requires
        is_fresh_job(job),
    ensures
        ({
            let u = JobPhase::Understanding;
            let pl = JobPhase::Planning;
            let after = after_complete(after_start(after_complete(after_start(job, u, t1), u, t2), pl, t3), pl, t4);
            &&& after.phase == JobPhase::Scripting
            &&& after.phase_status.status(u) == Some(PhaseRunState::Done)
            &&& after.phase_status.status(pl) == Some(PhaseRunState::Done)
            &&& after.phase_status.status(JobPhase::Scripting) == Some(PhaseRunState::Pending)
            &&& after.phase_status.status(JobPhase::Voicing) is None
            &&& after.phase_status.status(JobPhase::Rendering) is None
            &&& after.finished_phases == 2
        }),
{
    let u = JobPhase::Understanding;
    let pl = JobPhase::Planning;
    lemma_fresh_job_starts_first(job, u);
    let j1 = after_start(job, u, t1);
    assert(j1.phase_status.status(u) == Some(PhaseRunState::Running));
    let j2 = after_complete(j1, u, t2);
    assert(j2.phase_status.status(u) == Some(PhaseRunState::Done));
    assert(j2.phase_status.status(pl) == Some(PhaseRunState::Pending));
    assert(runnable(j2.phase_status, pl));
    let j3 = after_start(j2, pl, t3);
    assert(j3.phase_status.status(pl) == Some(PhaseRunState::Running));
    let j4 = after_complete(j3, pl, t4);
    assert(j4.phase_status.status(JobPhase::Scripting) == Some(PhaseRunState::Pending));
    assert(job.phase_status.status(JobPhase::Voicing) is None);
    assert(job.phase_status.status(JobPhase::Rendering) is None);
    assert(j4.phase_status.status(JobPhase::Voicing) is None);
    assert(j4.phase_status.status(JobPhase::Rendering) is None);
    assert(j4.phase_status.status(u) == Some(PhaseRunState::Done));
    assert(j4.phase_status.status(pl) == Some(PhaseRunState::Done));
    assert(finished_count(j4.phase_status) == 2);
}

/// The progress of a job that has just completed a phase is the number of
/// its finished phases, at most five.
pub proof fn lemma_progress_counts_finished(job: PipelineJob, p: JobPhase, t: String)
    requires
        job.phase_status.status(p) == Some(PhaseRunState::Running),
    ensures
        after_complete(job, p, t).finished_phases == finished_count(after_complete(job, p, t).phase_status),
        after_complete(job, p, t).finished_phases <= 5,
        after_complete(job, p, t).finished_phases >= 1,
{
    let m = job.phase_status;
    let c = completed_statuses(m, p);
    assert(c.status(p) == Some(PhaseRunState::Done)) by {
        lemma_with_status(m, p, PhaseRunState::Done, p);
        match phase_after(p) {
            Some(n) => { lemma_with_status(m.with(p, PhaseRunState::Done), n, PhaseRunState::Pending, p); },
            None => {},
        }
    }
}

} // verus!
