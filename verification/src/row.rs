use vstd::prelude::*;

use crate::civil::{is_iso_text_of, parse_iso, unix_to_iso};
use crate::job::{JobError, PhaseStatusMap, PipelineJob};
use crate::phase::{parse_phase, phase_key, phase_key_spec, phase_of_key, JobPhase};
use crate::text::leading_number;

verus! {

/// A job as it is stored: one row per project. The phase statuses and the
/// error are kept as JSON text; progress is kept as the number of finished
/// phases; times are Unix seconds.
pub struct JobRow {
    pub id: String,
    pub project_id: String,
    pub phase: String,
    pub phase_status_json: String,
    pub finished_phases: u64,
    pub error_json: Option<String>,
    pub created_at: i64,
    pub updated_at: i64,
}

/// The stored time for a job's timestamp text: the number it starts with,
/// or `now` where it starts with none.
pub open spec fn stored_time(text: Seq<char>, now: i64) -> i64 {
    match leading_number(text) {
        Some(v) => v,
        None => now,
    }
}

/// The error text of a failure, as `to_string` writes it.
pub fn stringify_err(e: &str) -> (r: String)
    ensures
        r@ == e@,
{
    String::from_str(e)
}

/// The row that stores `job` for `project_id` at time `now`, with the phase
/// statuses and error already written as JSON. A timestamp is stored as the
/// number it starts with, or as `now` where it starts with none.
pub fn job_to_row(
    job: &PipelineJob,
    project_id: &str,
    now: i64,
    phase_status_json: String,
    error_json: Option<String>,
) -> (row: JobRow)
    ensures
        row.id == job.id,
        row.project_id@ == project_id@,
        row.phase@ == phase_key_spec(job.phase),
        row.phase_status_json == phase_status_json,
        row.finished_phases == job.finished_phases,
        row.error_json == error_json,
        row.created_at == (if job.created_at@.len() == 0 { now } else { stored_time(job.created_at@, now) }),
        row.updated_at == stored_time(job.updated_at@, now),
{
    let created_at = if job.created_at.as_str().is_empty() {
        now
    } else {
        match parse_iso(job.created_at.as_str()) {
            Some(v) => v,
            None => now,
        }
    };
    let updated_at = match parse_iso(job.updated_at.as_str()) {
        Some(v) => v,
        None => now,
    };
    JobRow {
        id: job.id.clone(),
        project_id: String::from_str(project_id),
        phase: String::from_str(phase_key(&job.phase)),
        phase_status_json,
        finished_phases: job.finished_phases,
        error_json,
        created_at,
        updated_at,
    }
}

/// The job that `row` stores, with its phase statuses and error already
/// read from their JSON. A phase key that is not known reads as the first
/// phase; the times are written as ISO-8601 texts.
pub fn job_row_to_job(row: JobRow, phase_status: PhaseStatusMap, error: Option<JobError>) -> (job: PipelineJob)
    ensures
        job.id == row.id,
        job.phase == (match phase_of_key(row.phase@) {
            Some(p) => p,
            None => JobPhase::Understanding,
        }),
        job.phase_status == phase_status,
        job.finished_phases == row.finished_phases,
        job.error == error,
        is_iso_text_of(row.created_at as int, job.created_at@),
        is_iso_text_of(row.updated_at as int, job.updated_at@),
{
    let phase = match parse_phase(row.phase.as_str()) {
        Ok(p) => p,
        Err(_) => JobPhase::Understanding,
    };
    PipelineJob {
        id: row.id,
        phase,
        phase_status,
        finished_phases: row.finished_phases,
        error,
        created_at: unix_to_iso(row.created_at),
        updated_at: unix_to_iso(row.updated_at),
    }
}

} // verus!
