//! Errors of the library's logic, and the messages shown for them.

use vstd::prelude::*;
use vstd::string::*;
use crate::utils::text::{push_signed_decimal, signed_decimal_spec};

verus! {

/// What can go wrong in the library's logic.
#[derive(Debug)]
pub enum ReleezError {
    /// The release version given on the command line is not a semantic
    /// version.
    InvalidReleaseVersion { input: String, reason: String },
    /// A command of an auto task ended unsuccessfully; `exit_code` is absent
    /// when the command was ended by a signal.
    CommandFailed { command: String, exit_code: Option<i32>, task_name: String },
}

/// `'` + `s` + `'`.
pub open spec fn quoted(s: Seq<char>) -> Seq<char> {
    seq!['\''] + s + seq!['\'']
}

/// The text shown for an exit code, `na` when there is none.
pub open spec fn exit_code_text(code: Option<i32>) -> Seq<char> {
    match code {
        Some(c) => signed_decimal_spec(c as int),
        None => seq!['n', 'a'],
    }
}

/// The message shown for an error.
pub open spec fn error_message(e: ReleezError) -> Seq<char> {
    match e {
        ReleezError::InvalidReleaseVersion { input, .. } => "Invalid release version provided: "@ + quoted(input@),
        ReleezError::CommandFailed { command, exit_code, task_name } => "Failed to execute auto task command: "@
            + quoted(command@) + " with exit code: "@ + quoted(exit_code_text(exit_code)) + " for task: "@
            + quoted(task_name@),
    }
}

fn push_quoted(out: &mut String, s: &str)
    ensures
        final(out)@ == old(out)@ + quoted(s@),
{
    proof { reveal_strlit("'"); }
    out.append("'");
    out.append(s);
    out.append("'");
    assert(out@ =~= old(out)@ + quoted(s@));
}

impl ReleezError {
    /// The message shown for this error.
    pub fn message(&self) -> (r: String)
        ensures
            r@ == error_message(*self),
    {
        let mut out = String::new();
        match self {
            ReleezError::InvalidReleaseVersion { input, .. } => {
                proof { reveal_strlit("Invalid release version provided: "); }
                out.append("Invalid release version provided: ");
                push_quoted(&mut out, input.as_str());
            },
            ReleezError::CommandFailed { command, exit_code, task_name } => {
                proof {
                    reveal_strlit("Failed to execute auto task command: ");
                    reveal_strlit(" with exit code: ");
                    reveal_strlit(" for task: ");
                    reveal_strlit("'");
                    reveal_strlit("na");
                }
                out.append("Failed to execute auto task command: ");
                push_quoted(&mut out, command.as_str());
                out.append(" with exit code: ");
                out.append("'");
                match exit_code {
                    Some(c) => push_signed_decimal(&mut out, *c as i64),
                    None => out.append("na"),
                }
                out.append("'");
                out.append(" for task: ");
                push_quoted(&mut out, task_name.as_str());
            },
        }
        assert(out@ =~= error_message(*self));
        out
    }
}

} // verus!
