use fablr_pipeline::commands::{approve_decision, artifact_path_for, job_id_for, start_decision, start_message, stored_or_new};
use fablr_pipeline::job::{
    complete_phase_state, is_phase_runnable, retry_phase_state, skip_phase_state, start_phase_state,
    PhaseStatusMap, PipelineJob,
};
use fablr_pipeline::phase::{JobPhase, PhaseRunState};

fn t(s: &str) -> String {
    s.to_string()
}

fn status(job: &PipelineJob, p: JobPhase) -> Option<PhaseRunState> {
    job.phase_status.get(&p)
}

#[test]
fn a_new_job_can_only_start_its_first_phase() {
    let job = PipelineJob::new(t("job_p1_understanding"));
    assert!(is_phase_runnable(&job, &JobPhase::Understanding));
    assert!(!is_phase_runnable(&job, &JobPhase::Planning));
    assert!(!is_phase_runnable(&job, &JobPhase::Rendering));
}

#[test]
fn starting_a_phase_marks_it_running() {
    let job = PipelineJob::new(t("j"));
    let started = start_phase_state(&job, &JobPhase::Understanding, t("100"));
    assert_eq!(started.phase, JobPhase::Understanding);
    assert_eq!(status(&started, JobPhase::Understanding), Some(PhaseRunState::Running));
    assert_eq!(started.updated_at, "100");
    assert_eq!(started.id, "j");
    assert_eq!(status(&started, JobPhase::Planning), None);
}

#[test]
fn starting_twice_changes_nothing_more() {
    let job = PipelineJob::new(t("j"));
    let once = start_phase_state(&job, &JobPhase::Understanding, t("100"));
    let twice = start_phase_state(&once, &JobPhase::Understanding, t("200"));
    assert_eq!(twice.updated_at, "100");
    assert_eq!(twice.phase_status, once.phase_status);
}

#[test]
fn a_phase_cannot_start_before_the_earlier_ones_finish() {
    let job = PipelineJob::new(t("j"));
    let started = start_phase_state(&job, &JobPhase::Scripting, t("100"));
    assert_eq!(started.phase_status, job.phase_status);
    assert_eq!(started.updated_at, "");
}

#[test]
fn completing_moves_on_to_the_next_phase() {
    let job = PipelineJob::new(t("j"));
    let job = start_phase_state(&job, &JobPhase::Understanding, t("1"));
    let job = complete_phase_state(&job, &JobPhase::Understanding, Some(t("/tmp/a.json")), t("2"));
    assert_eq!(job.phase, JobPhase::Planning);
    assert_eq!(status(&job, JobPhase::Understanding), Some(PhaseRunState::Done));
    assert_eq!(status(&job, JobPhase::Planning), Some(PhaseRunState::Pending));
    assert_eq!(job.finished_phases, 1);
    assert!(is_phase_runnable(&job, &JobPhase::Planning));
}

#[test]
fn completing_a_phase_that_is_not_running_changes_nothing() {
    let job = PipelineJob::new(t("j"));
    let done = complete_phase_state(&job, &JobPhase::Understanding, None, t("2"));
    assert_eq!(done.phase_status, job.phase_status);
    assert_eq!(done.finished_phases, 0);
    assert_eq!(done.updated_at, "");
}

#[test]
fn the_last_phase_stays_current_when_done() {
    let mut job = PipelineJob::new(t("j"));
    for p in [JobPhase::Understanding, JobPhase::Planning, JobPhase::Scripting, JobPhase::Voicing, JobPhase::Rendering] {
        job = start_phase_state(&job, &p, t("1"));
        job = complete_phase_state(&job, &p, None, t("2"));
    }
    assert_eq!(job.phase, JobPhase::Rendering);
    assert_eq!(status(&job, JobPhase::Rendering), Some(PhaseRunState::Done));
    assert_eq!(job.finished_phases, 5);
}

#[test]
fn skipped_phases_count_as_finished() {
    let job = PipelineJob::new(t("j"));
    let job = skip_phase_state(&job, &JobPhase::Understanding, t("1"));
    assert_eq!(status(&job, JobPhase::Understanding), Some(PhaseRunState::Skipped));
    assert!(is_phase_runnable(&job, &JobPhase::Planning));
    let job = start_phase_state(&job, &JobPhase::Planning, t("2"));
    let job = complete_phase_state(&job, &JobPhase::Planning, None, t("3"));
    assert_eq!(job.finished_phases, 2);
}

#[test]
fn skipping_a_finished_phase_changes_nothing() {
    let job = PipelineJob::new(t("j"));
    let job = skip_phase_state(&job, &JobPhase::Understanding, t("1"));
    let again = skip_phase_state(&job, &JobPhase::Understanding, t("9"));
    assert_eq!(again.updated_at, "1");
}

#[test]
fn only_failed_phases_are_retried() {
    let mut job = PipelineJob::new(t("j"));
    job.phase_status.insert(JobPhase::Understanding, PhaseRunState::Failed);
    job.error = Some(fablr_pipeline::job::JobError { code: t("tts"), message: t("voice down") });
    let retried = retry_phase_state(&job, &JobPhase::Understanding, t("5"));
    assert_eq!(status(&retried, JobPhase::Understanding), Some(PhaseRunState::Pending));
    assert!(retried.error.is_none());
    let unchanged = retry_phase_state(&retried, &JobPhase::Understanding, t("6"));
    assert_eq!(unchanged.updated_at, "5");
}

#[test]
fn status_map_insert_and_get() {
    let mut m = PhaseStatusMap::new();
    assert_eq!(m.get(&JobPhase::Voicing), None);
    m.insert(JobPhase::Voicing, PhaseRunState::Failed);
    assert_eq!(m.get(&JobPhase::Voicing), Some(PhaseRunState::Failed));
    assert_eq!(m.get(&JobPhase::Rendering), None);
}

#[test]
fn job_ids_and_artifact_paths() {
    assert_eq!(job_id_for("p1", &JobPhase::Planning), "job_p1_planning");
    assert_eq!(artifact_path_for("p1", &JobPhase::Voicing), "/tmp/fablr/p1/voicing.json");
    assert_eq!(start_message(&JobPhase::Scripting), "开始 scripting");
}

#[test]
fn stored_job_is_preferred_over_a_new_one() {
    let fresh = stored_or_new(None, "p1", &JobPhase::Voicing);
    assert_eq!(fresh.id, "job_p1_voicing");
    let stored = PipelineJob::new(t("job_old"));
    let kept = stored_or_new(Some(stored), "p1", &JobPhase::Voicing);
    assert_eq!(kept.id, "job_old");
}

#[test]
fn start_decision_refuses_phases_out_of_order() {
    let job = PipelineJob::new(t("j"));
    match start_decision(&job, &JobPhase::Voicing, t("1")) {
        Err(e) => assert_eq!(e, "phase 'voicing' not runnable (前置未完成)"),
        Ok(_) => panic!("voicing must not start first"),
    }
    let ok = start_decision(&job, &JobPhase::Understanding, t("1")).unwrap();
    assert_eq!(status(&ok, JobPhase::Understanding), Some(PhaseRunState::Running));
}

#[test]
fn approving_planning_asks_for_plan_approval() {
    let job = PipelineJob::new(t("j"));
    let job = start_phase_state(&job, &JobPhase::Understanding, t("1"));
    let (job, review) = approve_decision(&job, &JobPhase::Understanding, "p1", t("2"));
    assert!(review.is_none());
    let job = start_phase_state(&job, &JobPhase::Planning, t("3"));
    let (job, review) = approve_decision(&job, &JobPhase::Planning, "p1", t("4"));
    let review = review.unwrap();
    assert_eq!(review.phase, JobPhase::Scripting);
    assert_eq!(review.gate, "plan-approval");
    assert_eq!(job.phase, JobPhase::Scripting);
    let (_, review) = approve_decision(&job, &JobPhase::Rendering, "p1", t("5"));
    assert!(review.is_none());
}

#[test]
fn running_the_ungated_phases_reaches_scripting() {
    let job = PipelineJob::new(t("j"));
    let job = start_phase_state(&job, &JobPhase::Understanding, t("1"));
    let job = complete_phase_state(&job, &JobPhase::Understanding, None, t("2"));
    let job = start_phase_state(&job, &JobPhase::Planning, t("3"));
    let job = complete_phase_state(&job, &JobPhase::Planning, None, t("4"));
    assert_eq!(job.phase, JobPhase::Scripting);
    assert_eq!(status(&job, JobPhase::Scripting), Some(PhaseRunState::Pending));
    assert_eq!(status(&job, JobPhase::Voicing), None);
    assert_eq!(job.finished_phases, 2);
}

#[test]
fn at_most_one_phase_runs_at_a_time() {
    let job = PipelineJob::new(t("j"));
    let job = start_phase_state(&job, &JobPhase::Understanding, t("1"));
    let job = skip_phase_state(&job, &JobPhase::Understanding, t("2"));
    let job = start_phase_state(&job, &JobPhase::Planning, t("3"));
    // a later phase cannot start while planning runs
    let blocked = start_phase_state(&job, &JobPhase::Scripting, t("4"));
    assert_eq!(blocked.phase_status, job.phase_status);
    let running = [JobPhase::Understanding, JobPhase::Planning, JobPhase::Scripting, JobPhase::Voicing, JobPhase::Rendering]
        .iter()
        .filter(|p| status(&job, **p) == Some(PhaseRunState::Running))
        .count();
    assert_eq!(running, 1);
}
