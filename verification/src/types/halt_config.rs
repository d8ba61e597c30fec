//! The record of an unfinished release: which sub task was checked last.

use vstd::prelude::*;
use crate::types::release_config::ReleaseConfig;

verus! {

/// Where a release stopped, written after each checked sub task.
#[derive(Debug)]
pub struct HaltConfig {
    /// The version field of the checklist that was being run.
    pub version: String,
    pub last_checked: LastCheckedConfig,
}

/// The last checked sub task of a release.
#[derive(Clone, Copy, Debug, PartialEq, Eq, Structural)]
pub struct LastCheckedConfig {
    /// Index of the task in the checklist, starting at 0.
    pub task_id: u64,
    /// Index of the sub task within the task, starting at 0.
    pub sub_task_id: u64,
    /// When the sub task was checked, in milliseconds since the Unix epoch.
    pub date: i64,
}

impl HaltConfig {
    /// The record that sub task `sub_task_id` of task `task_id` of
    /// `release_config` was checked at `date`.
    pub fn checked_at(release_config: &ReleaseConfig, task_id: u64, sub_task_id: u64, date: i64) -> (r: HaltConfig)
        ensures
            r.version@ == release_config.version@,
            r.last_checked == (LastCheckedConfig { task_id, sub_task_id, date }),
    {
        HaltConfig {
            version: release_config.version.clone(),
            last_checked: LastCheckedConfig { task_id, sub_task_id, date },
        }
    }

    /// Whether this record belongs to a run of `release_config`: the two
    /// carry the same version field.
    pub fn matches_release(&self, release_config: &ReleaseConfig) -> (r: bool)
        ensures
            r == (self.version@ == release_config.version@),
    {
        self.version == release_config.version
    }
}

} // verus!
