//! Answers the user gives at the prompts of a run.

use vstd::prelude::*;
use vstd::string::*;
use crate::constants::{BOOL_POSSIBLE_TRUTHY_INPUTS, MANUAL_TASK_QUIT_COMMAND};
use crate::utils::text::{all_ascii, ascii_lowercase, lowercase, to_lowercase, str_equal};

verus! {

/// Whether `s`, already in lower case, is one of the answers that mean yes.
pub open spec fn is_truthy(s: Seq<char>) -> bool {
    s == BOOL_POSSIBLE_TRUTHY_INPUTS@[0]@ || s == BOOL_POSSIBLE_TRUTHY_INPUTS@[1]@
}

/// Whether `lowered`, an answer already in lower case, is one of the words
/// that mean yes.
pub fn is_truthy_word(lowered: &str) -> (r: bool)
    ensures
        r == is_truthy(lowered@),
{
    let mut i: usize = 0;
    while i < 2
        invariant
            i <= 2,
            forall|k: int| 0 <= k < i ==> lowered@ != (#[trigger] BOOL_POSSIBLE_TRUTHY_INPUTS@[k])@,
        decreases 2 - i,
    {
        let word = BOOL_POSSIBLE_TRUTHY_INPUTS[i];
        assert(word == BOOL_POSSIBLE_TRUTHY_INPUTS@[i as int]);
        if str_equal(lowered, word) {
            assert(i == 0 || i == 1);
            return true;
        }
        i = i + 1;
    }
    false
}

/// Whether `lowered`, a line already in lower case, is the quit word.
pub fn is_quit_word(lowered: &str) -> (r: bool)
    ensures
        r == (lowered@ == MANUAL_TASK_QUIT_COMMAND@),
{
    str_equal(lowered, MANUAL_TASK_QUIT_COMMAND)
}

/// The answer to a yes/no question: an empty line takes `default_val`;
/// the answer is yes when it is, in lower case, one of the yes words.
pub fn confirmation_answer(line: &str, default_val: &str) -> (r: bool)
    ensures
        r == is_truthy(lowercase(if line@.len() == 0 { default_val@ } else { line@ })),
        all_ascii(if line@.len() == 0 { default_val@ } else { line@ }) ==> r == is_truthy(
            ascii_lowercase(if line@.len() == 0 { default_val@ } else { line@ }),
        ),
{
    let answer = if line.is_empty() {
        default_val
    } else {
        line
    };
    let lower = to_lowercase(answer);
    is_truthy_word(lower.as_str())
}

/// Whether the line a user typed at a manual sub task asks to quit: in
/// lower case it is the quit word.
pub fn is_quit_command(line: &str) -> (r: bool)
    ensures
        r == (lowercase(line@) == MANUAL_TASK_QUIT_COMMAND@),
        all_ascii(line@) ==> r == (ascii_lowercase(line@) == MANUAL_TASK_QUIT_COMMAND@),
{
    let lower = to_lowercase(line);
    is_quit_word(lower.as_str())
}

} // verus!
