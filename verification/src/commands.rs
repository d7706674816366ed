use vstd::prelude::*;

use crate::job::{
    after_complete, after_start, complete_phase_state, is_fresh_job, is_phase_runnable, runnable,
    start_phase_state, PipelineJob,
};
use crate::phase::{gate_for, gate_spec, next_after, phase_after, phase_key, phase_key_spec, JobPhase};
use crate::text::joined;

verus! {

/// Id given to a new job that is created for `project_id` when `phase` is
/// first asked for: `job_<project>_<phase key>`.
pub open spec fn job_id_spec(project_id: Seq<char>, p: JobPhase) -> Seq<char> {
    "job_"@ + project_id + "_"@ + phase_key_spec(p)
}

/// Where the artifact of `phase` for `project_id` is kept:
/// `/tmp/fablr/<project>/<phase key>.json`.
pub open spec fn artifact_path_spec(project_id: Seq<char>, p: JobPhase) -> Seq<char> {
    "/tmp/fablr/"@ + project_id + "/"@ + phase_key_spec(p) + ".json"@
}

/// Why a phase was refused: `phase '<key>' not runnable (前置未完成)`.
pub open spec fn not_runnable_message(p: JobPhase) -> Seq<char> {
    "phase '"@ + phase_key_spec(p) + "' not runnable (前置未完成)"@
}

/// Progress text sent when a phase starts: `开始 <key>`.
pub open spec fn start_message_spec(p: JobPhase) -> Seq<char> {
    "开始 "@ + phase_key_spec(p)
}

/// A review that the next phase waits for once a phase is approved.
pub struct ReviewRequest {
    pub phase: JobPhase,
    pub gate: &'static str,
}

pub fn job_id_for(project_id: &str, phase: &JobPhase) -> (id: String)
    ensures
        id@ == job_id_spec(project_id@, *phase),
{
    let head = joined("job_", project_id);
    let head = head.concat("_");
    head.concat(phase_key(phase))
}

pub fn artifact_path_for(project_id: &str, phase: &JobPhase) -> (path: String)
    ensures
        path@ == artifact_path_spec(project_id@, *phase),
{
    let path = joined("/tmp/fablr/", project_id);
    let path = path.concat("/");
    let path = path.concat(phase_key(phase));
    path.concat(".json")
}

pub fn start_message(phase: &JobPhase) -> (msg: String)
    ensures
        msg@ == start_message_spec(*phase),
{
    joined("开始 ", phase_key(phase))
}

/// The job that a command on `phase` of `project_id` works on: the stored
/// one, or else a fresh job named after the project and phase.
pub fn stored_or_new(stored: Option<PipelineJob>, project_id: &str, phase: &JobPhase) -> (job: PipelineJob)
    ensures
        match stored {
            Some(j) => job == j,
            None => is_fresh_job(job) && job.id@ == job_id_spec(project_id@, *phase),
        },
{
    match stored {
        Some(j) => j,
        None => PipelineJob::new(job_id_for(project_id, phase)),
    }
}

/// Starts `phase` of `job` at `updated_at`; a phase that may not start yet
/// (it already ran, or a phase before it is unfinished) is refused.
pub fn start_decision(job: &PipelineJob, phase: &JobPhase, updated_at: String) -> (r: Result<PipelineJob, String>)
    ensures
        runnable(job.phase_status, *phase) ==> r == Ok::<PipelineJob, String>(after_start(*job, *phase, updated_at)),
        !runnable(job.phase_status, *phase) ==> (r matches Err(e) && e@ == not_runnable_message(*phase)),
{
    if !is_phase_runnable(job, phase) {
        let msg = joined("phase '", phase_key(phase));
        return Err(msg.concat("' not runnable (前置未完成)"));
    }
    Ok(start_phase_state(job, phase, updated_at))
}

/// Approves `phase` of `job` at `updated_at`: the phase is completed (if it
/// was running), and the review gate of the phase after it, if that phase
/// has one, is named for review.
pub fn approve_decision(job: &PipelineJob, phase: &JobPhase, project_id: &str, updated_at: String) -> (r: (PipelineJob, Option<ReviewRequest>))
    ensures
        r.0 == after_complete(*job, *phase, updated_at),
        match phase_after(*phase) {
            Some(n) => match gate_spec(n) {
                Some(g) => r.1 matches Some(req) && req.phase == n && req.gate@ == g,
                None => r.1 is None,
            },
            None => r.1 is None,
        },
{
    let artifact_path = artifact_path_for(project_id, phase);
    let updated = complete_phase_state(job, phase, Some(artifact_path), updated_at);
    let review = match next_after(phase) {
        Some(next) => match gate_for(&next) {
            Some(g) => Some(ReviewRequest { phase: next, gate: g }),
            None => None,
        },
        None => None,
    };
    (updated, review)
}

} // verus!
