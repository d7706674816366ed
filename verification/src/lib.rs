//! The decisions of a video-production pipeline: the phases of a job and the
//! rules by which they start, finish, fail and are skipped; how a job is
//! stored (with Unix times written as ISO-8601 UTC dates); and how a
//! platform preset becomes export settings.

pub mod phase;
pub mod job;
pub mod commands;
pub mod row;
pub mod civil;
pub mod clock;
pub mod text;
pub mod platform;
