//! The checklist model read from the configuration file.

use vstd::prelude::*;
use crate::utils::system_val_resolver::{resolve_system_dependent_value_config, system_values};

verus! {

/// A configuration value as the checklist file holds it: a string, a list,
/// a table keyed by operating-system names, or a scalar the tool ignores.
#[derive(Debug)]
pub enum ConfigValue {
    Null,
    Bool(bool),
    /// A number, kept in its textual form.
    Number(String),
    Text(String),
    List(Vec<ConfigValue>),
    /// Entries in the order they are looked through; a table read from the
    /// checklist file comes in the sorted key order of serde_json's map.
    Table(Vec<(String, ConfigValue)>),
}

/// Whether a task is done by hand or by running commands.
#[derive(Clone, Copy, Debug, PartialEq, Eq, Structural)]
pub enum TaskType {
    Manual,
    Auto,
}

/// One entry of the checklist.
#[derive(Debug)]
pub struct Task {
    pub name: String,
    pub task_type: TaskType,
    /// What a manual task asks the user to do.
    pub instructions: Option<ConfigValue>,
    /// The commands of an auto task.
    pub run: Option<ConfigValue>,
    /// A question asked before an auto task starts.
    pub confirm: Option<String>,
}

/// The whole checklist file.
#[derive(Debug)]
pub struct ReleaseConfig {
    pub version: String,
    pub checklist: Vec<Task>,
}

/// The value that lists a task's sub tasks: the instructions of a manual
/// task, the commands of an auto task.
pub open spec fn sub_task_source(task: Task) -> Option<ConfigValue> {
    match task.task_type {
        TaskType::Manual => task.instructions,
        TaskType::Auto => task.run,
    }
}

/// The sub tasks of `task` on the operating system `os`.
pub open spec fn sub_tasks_spec(task: Task, os: Seq<char>) -> Seq<Seq<char>> {
    match sub_task_source(task) {
        Some(v) => system_values(v, os),
        None => Seq::empty(),
    }
}

/// The views of a sequence of strings.
pub open spec fn string_views(v: Seq<String>) -> Seq<Seq<char>> {
    v.map_values(|s: String| s@)
}

impl Task {
    /// The sub tasks of a task on the operating system `os`, in order.
    /// A task done by hand lists them under `instructions`;
    /// a task of commands under `run`.
    pub fn sub_tasks(&self, os: &str) -> (r: Vec<String>)
        ensures
            string_views(r@) == sub_tasks_spec(*self, os@),
    {
        let source = match self.task_type {
            TaskType::Manual => &self.instructions,
            TaskType::Auto => &self.run,
        };
        match source {
            Some(v) => resolve_system_dependent_value_config(v, os),
            None => {
                let r: Vec<String> = Vec::new();
                assert(string_views(r@) =~= Seq::<Seq<char>>::empty());
                r
            },
        }
    }
}

} // verus!
