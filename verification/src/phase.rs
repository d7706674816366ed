use vstd::prelude::*;

use crate::text::{joined, str_eq};

verus! {

/// The stages of a pipeline job, in the order in which they run.
#[derive(Clone, Copy, Debug, PartialEq, Eq, Structural)]
pub enum JobPhase {
    Understanding,
    Planning,
    Scripting,
    Voicing,
    Rendering,
}

/// How far a single phase of a job has got.
#[derive(Clone, Copy, Debug, PartialEq, Eq, Structural)]
pub enum PhaseRunState {
    Pending,
    Running,
    Done,
    Failed,
    Skipped,
}

/// Number of phases in a pipeline.
pub const PHASE_COUNT: u64 = 5;

/// Position of a phase in the pipeline order (0 for the first).
pub open spec fn phase_index(p: JobPhase) -> int {
    match p {
        JobPhase::Understanding => 0,
        JobPhase::Planning => 1,
        JobPhase::Scripting => 2,
        JobPhase::Voicing => 3,
        JobPhase::Rendering => 4,
    }
}

/// The phase at position `i` of the pipeline order (`i` in `0..5`).
pub open spec fn phase_at(i: int) -> JobPhase {
    if i <= 0 {
        JobPhase::Understanding
    } else if i == 1 {
        JobPhase::Planning
    } else if i == 2 {
        JobPhase::Scripting
    } else if i == 3 {
        JobPhase::Voicing
    } else {
        JobPhase::Rendering
    }
}

/// The phase that follows `p` in the pipeline, if any.
pub open spec fn phase_after(p: JobPhase) -> Option<JobPhase> {
    if phase_index(p) < 4 {
        Some(phase_at(phase_index(p) + 1))
    } else {
        None
    }
}

pub open spec fn phase_key_spec(p: JobPhase) -> Seq<char> {
    match p {
        JobPhase::Understanding => "understanding"@,
        JobPhase::Planning => "planning"@,
        JobPhase::Scripting => "scripting"@,
        JobPhase::Voicing => "voicing"@,
        JobPhase::Rendering => "rendering"@,
    }
}

/// The phase whose key is `s`, if any.
pub open spec fn phase_of_key(s: Seq<char>) -> Option<JobPhase> {
    if s == phase_key_spec(JobPhase::Understanding) {
        Some(JobPhase::Understanding)
    } else if s == phase_key_spec(JobPhase::Planning) {
        Some(JobPhase::Planning)
    } else if s == phase_key_spec(JobPhase::Scripting) {
        Some(JobPhase::Scripting)
    } else if s == phase_key_spec(JobPhase::Voicing) {
        Some(JobPhase::Voicing)
    } else if s == phase_key_spec(JobPhase::Rendering) {
        Some(JobPhase::Rendering)
    } else {
        None
    }
}

/// Name of the review gate that a phase waits at before it may start.
pub open spec fn gate_spec(p: JobPhase) -> Option<Seq<char>> {
    match p {
        JobPhase::Scripting => Some("plan-approval"@),
        JobPhase::Voicing => Some("script-review"@),
        JobPhase::Rendering => Some("voice-review"@),
        _ => None,
    }
}

pub open spec fn unknown_phase_message(s: Seq<char>) -> Seq<char> {
    "unknown phase: "@ + s
}

/// The phase at position `i` of the pipeline order.
pub fn phase_at_index(i: u64) -> (p: JobPhase)
    requires
        i < 5,
    ensures
        p == phase_at(i as int),
        phase_index(p) == i,
{
    if i == 0 {
        JobPhase::Understanding
    } else if i == 1 {
        JobPhase::Planning
    } else if i == 2 {
        JobPhase::Scripting
    } else if i == 3 {
        JobPhase::Voicing
    } else {
        JobPhase::Rendering
    }
}

/// Position of a phase in the pipeline order.
pub fn index_of_phase(p: JobPhase) -> (i: u64)
    ensures
        i == phase_index(p),
{
    match p {
        JobPhase::Understanding => 0,
        JobPhase::Planning => 1,
        JobPhase::Scripting => 2,
        JobPhase::Voicing => 3,
        JobPhase::Rendering => 4,
    }
}

/// Key of a phase, as it is written in requests and in storage.
pub fn phase_key(p: &JobPhase) -> (key: &'static str)
    ensures
        key@ == phase_key_spec(*p),
{
    match p {
        JobPhase::Understanding => "understanding",
        JobPhase::Planning => "planning",
        JobPhase::Scripting => "scripting",
        JobPhase::Voicing => "voicing",
        JobPhase::Rendering => "rendering",
    }
}

/// Reads a phase from its key; any other text is refused with
/// `unknown phase: <text>`.
pub fn parse_phase(s: &str) -> (r: Result<JobPhase, String>)
    ensures
        match r {
            Ok(p) => phase_of_key(s@) == Some(p),
            Err(e) => phase_of_key(s@) is None && e@ == unknown_phase_message(s@),
        },
{
    if str_eq(s, "understanding") {
        Ok(JobPhase::Understanding)
    } else if str_eq(s, "planning") {
        Ok(JobPhase::Planning)
    } else if str_eq(s, "scripting") {
        Ok(JobPhase::Scripting)
    } else if str_eq(s, "voicing") {
        Ok(JobPhase::Voicing)
    } else if str_eq(s, "rendering") {
        Ok(JobPhase::Rendering)
    } else {
        Err(joined("unknown phase: ", s))
    }
}

/// The phase that follows `p` in the pipeline (`None` after the last).
pub fn next_after(p: &JobPhase) -> (r: Option<JobPhase>)
    ensures
        r == phase_after(*p),
{
    let i = index_of_phase(*p);
    if i + 1 < PHASE_COUNT {
        Some(phase_at_index(i + 1))
    } else {
        None
    }
}

/// The review gate that must be passed before `p` may start, if any.
pub fn gate_for(p: &JobPhase) -> (r: Option<&'static str>)
    ensures
        match r {
            Some(g) => gate_spec(*p) == Some(g@),
            None => gate_spec(*p) is None,
        },
{
    match p {
        JobPhase::Scripting => Some("plan-approval"),
        JobPhase::Voicing => Some("script-review"),
        JobPhase::Rendering => Some("voice-review"),
        _ => None,
    }
}

/// Each phase's key reads back as that phase.
pub proof fn lemma_phase_key_round_trip(p: JobPhase)
    ensures
        phase_of_key(phase_key_spec(p)) == Some(p),
{
    reveal_strlit("understanding");
    reveal_strlit("planning");
    reveal_strlit("scripting");
    reveal_strlit("voicing");
    reveal_strlit("rendering");
    assert(phase_key_spec(JobPhase::Understanding)[0] == 'u');
    assert(phase_key_spec(JobPhase::Planning)[0] == 'p');
    assert(phase_key_spec(JobPhase::Scripting)[0] == 's');
    assert(phase_key_spec(JobPhase::Voicing)[0] == 'v');
    assert(phase_key_spec(JobPhase::Rendering)[0] == 'r');
}

/// The pipeline runs understanding, planning, scripting, voicing, then
/// rendering: each phase is followed by the next in that order, and
/// rendering by none.
pub proof fn lemma_phase_after_law(p: JobPhase)
    ensures
        phase_index(JobPhase::Understanding) == 0,
        phase_index(JobPhase::Planning) == 1,
        phase_index(JobPhase::Scripting) == 2,
        phase_index(JobPhase::Voicing) == 3,
        phase_index(JobPhase::Rendering) == 4,
        phase_after(p) is None <==> p == JobPhase::Rendering,
        phase_after(p) matches Some(n) ==> phase_index(n) == phase_index(p) + 1,
{
}

/// The pipeline order visits each phase once: index and position are inverse.
pub proof fn lemma_phase_order(p: JobPhase, i: int)
    ensures
        phase_at(phase_index(p)) == p,
        0 <= phase_index(p) < 5,
        0 <= i < 5 ==> phase_index(phase_at(i)) == i,
{
}

} // verus!
