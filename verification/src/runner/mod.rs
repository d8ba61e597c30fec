//! Running a release checklist: reading the release version, where a run
//! starts, what it goes through and what the user answers.

pub mod executor;
pub mod prompts;
pub mod release_version;
