//! Logic of a release-checklist runner: the configuration model, where a
//! halted release resumes, variable substitution in instructions, and the
//! release version given on the command line.

pub mod constants;
pub mod error;
pub mod runner;
pub mod types;
pub mod utils;
