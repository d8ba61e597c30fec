//! Names and fixed words of the tool.

use vstd::prelude::*;

verus! {

/// The name of the checklist file.
pub const CONFIG_FILE_NAME: &'static str = "releez.yml";

/// Where the checklist file is looked for by default.
pub const DEFAULT_CONFIG_FILE_PATH: &'static str = "./releez.yml";

/// The file that records the last checked sub task of an unfinished release.
pub const HALT_CONFIG_FILE_NAME: &'static str = ".halt.releez.yml";

/// The variable that holds the release version in instructions and commands.
pub const VAR_NAME_VERSION: &'static str = "VERSION";

/// The answer that quits a manual task.
pub const MANUAL_TASK_QUIT_COMMAND: &'static str = "q";

/// The tool's author line.
pub const APP_AUTHOR: &'static str = "Rousan Ali <hello@rousan.io> (https://rousan.io)";

/// Answers that mean yes, in lower case.
pub const BOOL_POSSIBLE_TRUTHY_INPUTS: [&'static str; 2] = ["yes", "y"];

/// Answers that mean no, in lower case.
pub const BOOL_POSSIBLE_FALSY_INPUTS: [&'static str; 2] = ["no", "n"];

} // verus!
