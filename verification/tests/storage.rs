use fablr_pipeline::job::{PhaseStatusMap, PipelineJob};
use fablr_pipeline::phase::{JobPhase, PhaseRunState};
use fablr_pipeline::platform::{export_input_for, PlatformExportInput, PlatformPreset};
use fablr_pipeline::row::{job_row_to_job, job_to_row, stringify_err, JobRow};

#[test]
fn a_job_is_stored_with_its_phase_key_and_leading_numbers_as_times() {
    let mut job = PipelineJob::new("job_p_understanding".to_string());
    job.phase = JobPhase::Voicing;
    job.finished_phases = 3;
    job.created_at = "1700000000".to_string();
    job.updated_at = "2024-08-30T14:57:49Z".to_string();
    let row = job_to_row(&job, "p", 1725029869, "{}".to_string(), None);
    assert_eq!(row.id, "job_p_understanding");
    assert_eq!(row.project_id, "p");
    assert_eq!(row.phase, "voicing");
    assert_eq!(row.phase_status_json, "{}");
    assert_eq!(row.finished_phases, 3);
    assert_eq!(row.error_json, None);
    assert_eq!(row.created_at, 1700000000);
    assert_eq!(row.updated_at, 2024);
}

#[test]
fn a_job_without_creation_time_is_stored_as_created_now() {
    let job = PipelineJob::new("j".to_string());
    let row = job_to_row(&job, "p", 42, "{}".to_string(), Some("{\"code\":\"x\"}".to_string()));
    assert_eq!(row.created_at, 42);
    assert_eq!(row.updated_at, 42);
    assert_eq!(row.error_json.as_deref(), Some("{\"code\":\"x\"}"));
}

#[test]
fn a_row_reads_back_as_a_job() {
    let row = JobRow {
        id: "j".to_string(),
        project_id: "p".to_string(),
        phase: "scripting".to_string(),
        phase_status_json: String::new(),
        finished_phases: 2,
        error_json: None,
        created_at: 0,
        updated_at: 1725029869,
    };
    let mut statuses = PhaseStatusMap::new();
    statuses.insert(JobPhase::Scripting, PhaseRunState::Running);
    let job = job_row_to_job(row, statuses, None);
    assert_eq!(job.id, "j");
    assert_eq!(job.phase, JobPhase::Scripting);
    assert_eq!(job.phase_status, statuses);
    assert_eq!(job.finished_phases, 2);
    assert_eq!(job.created_at, "1970-01-01T00:00:00Z");
    assert_eq!(job.updated_at, "2024-08-30T14:57:49Z");
}

#[test]
fn an_unknown_stored_phase_reads_as_the_first() {
    let row = JobRow {
        id: "j".to_string(),
        project_id: "p".to_string(),
        phase: "mastering".to_string(),
        phase_status_json: String::new(),
        finished_phases: 0,
        error_json: None,
        created_at: 0,
        updated_at: 0,
    };
    let job = job_row_to_job(row, PhaseStatusMap::new(), None);
    assert_eq!(job.phase, JobPhase::Understanding);
}

#[test]
fn errors_are_passed_on_as_text() {
    assert_eq!(stringify_err("database is locked"), "database is locked");
}

fn preset(burn: bool) -> PlatformPreset {
    PlatformPreset {
        width: 1080,
        height: 1920,
        fps: 30,
        container: "Mp4".to_string(),
        video_codec: "H264".to_string(),
        audio_codec: "AAC".to_string(),
        video_bitrate: 3500,
        burn_subtitle_by_default: burn,
    }
}

fn request(subtitle: Option<&str>, burn: Option<bool>) -> PlatformExportInput {
    PlatformExportInput {
        platform_id: "douyin".to_string(),
        input_path: "/a.mp4".to_string(),
        output_path: "/b.mp4".to_string(),
        subtitle_path: subtitle.map(|s| s.to_string()),
        burn_subtitles: burn,
    }
}

#[test]
fn export_settings_come_from_the_preset() {
    let out = export_input_for(&preset(true), request(Some("/s.srt"), None));
    assert_eq!(out.input_path, "/a.mp4");
    assert_eq!(out.output_path, "/b.mp4");
    assert_eq!(out.format.as_deref(), Some("mp4"));
    assert_eq!(out.resolution.as_deref(), Some("1080x1920"));
    assert_eq!(out.frame_rate, Some(30));
    assert_eq!(out.video_codec.as_deref(), Some("h264"));
    assert_eq!(out.audio_codec.as_deref(), Some("aac"));
    assert_eq!(out.crf, None);
    assert_eq!(out.subtitle_enabled, Some(true));
    assert_eq!(out.subtitle_path.as_deref(), Some("/s.srt"));
    assert_eq!(out.burn_subtitles, Some(true));
}

#[test]
fn subtitles_are_enabled_only_when_burnt_and_given() {
    let out = export_input_for(&preset(true), request(None, None));
    assert_eq!(out.subtitle_enabled, Some(false));
    assert_eq!(out.burn_subtitles, Some(true));
    let out = export_input_for(&preset(true), request(Some("/s.srt"), Some(false)));
    assert_eq!(out.subtitle_enabled, Some(false));
    assert_eq!(out.burn_subtitles, Some(false));
    let out = export_input_for(&preset(false), request(Some("/s.srt"), Some(true)));
    assert_eq!(out.subtitle_enabled, Some(true));
    let out = export_input_for(&preset(false), request(Some("/s.srt"), None));
    assert_eq!(out.subtitle_enabled, Some(false));
    assert_eq!(out.burn_subtitles, Some(false));
}
