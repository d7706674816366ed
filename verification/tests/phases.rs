use fablr_pipeline::phase::{gate_for, next_after, parse_phase, phase_key, JobPhase};

const ALL: [JobPhase; 5] = [
    JobPhase::Understanding,
    JobPhase::Planning,
    JobPhase::Scripting,
    JobPhase::Voicing,
    JobPhase::Rendering,
];

#[test]
fn phase_keys_read_back_as_their_phase() {
    for p in ALL {
        assert_eq!(parse_phase(phase_key(&p)), Ok(p));
    }
}

#[test]
fn phase_keys_are_lowercase_names() {
    assert_eq!(phase_key(&JobPhase::Understanding), "understanding");
    assert_eq!(phase_key(&JobPhase::Planning), "planning");
    assert_eq!(phase_key(&JobPhase::Scripting), "scripting");
    assert_eq!(phase_key(&JobPhase::Voicing), "voicing");
    assert_eq!(phase_key(&JobPhase::Rendering), "rendering");
}

#[test]
fn unknown_phase_is_refused_with_its_name() {
    assert_eq!(parse_phase("editing"), Err("unknown phase: editing".to_string()));
    assert_eq!(parse_phase(""), Err("unknown phase: ".to_string()));
    assert_eq!(parse_phase("Planning"), Err("unknown phase: Planning".to_string()));
    assert_eq!(parse_phase("planning "), Err("unknown phase: planning ".to_string()));
}

#[test]
fn next_after_follows_the_pipeline_order() {
    assert_eq!(next_after(&JobPhase::Understanding), Some(JobPhase::Planning));
    assert_eq!(next_after(&JobPhase::Planning), Some(JobPhase::Scripting));
    assert_eq!(next_after(&JobPhase::Scripting), Some(JobPhase::Voicing));
    assert_eq!(next_after(&JobPhase::Voicing), Some(JobPhase::Rendering));
    assert_eq!(next_after(&JobPhase::Rendering), None);
}

#[test]
fn review_gates_guard_the_late_phases() {
    assert_eq!(gate_for(&JobPhase::Understanding), None);
    assert_eq!(gate_for(&JobPhase::Planning), None);
    assert_eq!(gate_for(&JobPhase::Scripting), Some("plan-approval"));
    assert_eq!(gate_for(&JobPhase::Voicing), Some("script-review"));
    assert_eq!(gate_for(&JobPhase::Rendering), Some("voice-review"));
}
