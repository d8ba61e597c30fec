//! Where a run of the checklist starts, and which sub tasks it goes
//! through.

use vstd::prelude::*;
use vstd::string::*;
use crate::error::ReleezError;
use crate::types::halt_config::HaltConfig;
use crate::types::release_config::{ReleaseConfig, Task, string_views, sub_tasks_spec};
use crate::utils::text::{trim, trim_spec, str_equal};
use crate::utils::var_subs::{VarTable, substitute_variable_in_text, substituted_text};

verus! {

/// The number of sub tasks of task `t` on `os`.
pub open spec fn sub_task_count(release: ReleaseConfig, t: int, os: Seq<char>) -> int {
    sub_tasks_spec(release.checklist@[t], os).len() as int
}

/// Whether `(t, s)` names a sub task of the checklist on `os`.
pub open spec fn is_step(release: ReleaseConfig, t: int, s: int, os: Seq<char>) -> bool {
    0 <= t < release.checklist@.len() && 0 <= s < sub_task_count(release, t, os)
}

/// Lexicographic order on `(task, sub task)` pairs.
pub open spec fn step_before(a: (int, int), b: (int, int)) -> bool {
    a.0 < b.0 || (a.0 == b.0 && a.1 < b.1)
}

/// The sub task that follows sub task `s` of task `t`: the next one in the
/// same task, or the first of the next task.
pub open spec fn next_after(release: ReleaseConfig, t: int, s: int, os: Seq<char>) -> (int, int) {
    if s + 1 < sub_task_count(release, t, os) {
        (t, s + 1)
    } else {
        (t + 1, 0)
    }
}

/// Where a run starts, given the record of a halted run and whether the
/// user chose to resume it.
pub open spec fn start_ids_spec(
    release: ReleaseConfig,
    halt: Option<&HaltConfig>,
    resume: bool,
    os: Seq<char>,
) -> (int, int) {
    match halt {
        Some(h) => if h.version@ == release.version@ && resume && (h.last_checked.task_id as int)
            < release.checklist@.len() {
            next_after(release, h.last_checked.task_id as int, h.last_checked.sub_task_id as int, os)
        } else {
            (0, 0)
        },
        None => (0, 0),
    }
}

/// Whether the user is to be asked about resuming: there is a record of a
/// halted run of the same checklist version.
pub fn should_ask_to_resume(release_config: &ReleaseConfig, halt_config: Option<&HaltConfig>) -> (r: bool)
    ensures
        r == (halt_config matches Some(h) && h.version@ == release_config.version@),
{
    match halt_config {
        Some(h) => h.matches_release(release_config),
        None => false,
    }
}

/// Where a run starts: right after the last checked sub task when the user
/// resumes a halted run of the same version whose task still exists, else
/// at the very beginning.
pub fn calculate_start_task_ids(
    release_config: &ReleaseConfig,
    halt_config: Option<&HaltConfig>,
    resume_confirmed: bool,
    os: &str,
) -> (r: (u64, u64))
    requires
        halt_config matches Some(h) ==> (h.version@ == release_config.version@ && resume_confirmed
            && (h.last_checked.task_id as int) < release_config.checklist@.len()
            ==> h.last_checked.sub_task_id < u64::MAX),
    ensures
        (r.0 as int, r.1 as int) == start_ids_spec(*release_config, halt_config, resume_confirmed, os@),
{
    if let Some(h) = halt_config {
        if h.matches_release(release_config) && resume_confirmed {
            let t = h.last_checked.task_id;
            let s = h.last_checked.sub_task_id;
            if t < release_config.checklist.len() as u64 {
                let n = release_config.checklist[t as usize].sub_tasks(os).len();
                if s + 1 < n as u64 {
                    return (t, s + 1);
                } else {
                    return (t + 1, 0);
                }
            }
        }
    }
    (0, 0)
}

/// One task of a run, with the sub task the run starts it at.
#[derive(Clone, Copy, Debug, PartialEq, Eq, Structural)]
pub struct PlannedTask {
    pub task_id: u64,
    pub first_sub_task_id: u64,
}

/// A start point past the end of the checklist starts over from the
/// beginning.
pub open spec fn clamp_start(release: ReleaseConfig, t0: int, s0: int) -> (int, int) {
    if t0 >= release.checklist@.len() {
        (0, 0)
    } else {
        (t0, s0)
    }
}

/// The tasks from `t0` to the end, the first started at sub task `s0`.
pub open spec fn plan_from(release: ReleaseConfig, t0: int, s0: int) -> Seq<PlannedTask> {
    Seq::new(
        (release.checklist@.len() - t0) as nat,
        |i: int|
            PlannedTask {
                task_id: (t0 + i) as u64,
                first_sub_task_id: if i == 0 {
                    s0 as u64
                } else {
                    0
                },
            },
    )
}

/// The tasks that a run started at `(t0, s0)` goes through.
pub open spec fn plan_spec(release: ReleaseConfig, t0: int, s0: int) -> Seq<PlannedTask> {
    let st = clamp_start(release, t0, s0);
    plan_from(release, st.0, st.1)
}

/// The tasks that a run started at task `start_task_id`, sub task
/// `start_sub_task_id` goes through, in checklist order; a start past the
/// end of the checklist starts over at the first sub task of the first task.
pub fn execution_plan(release_config: &ReleaseConfig, start_task_id: u64, start_sub_task_id: u64) -> (r: Vec<
    PlannedTask,
>)
    ensures
        r@ == plan_spec(*release_config, start_task_id as int, start_sub_task_id as int),
{
    let len = release_config.checklist.len();
    let (t0, s0) = if start_task_id >= len as u64 {
        (0usize, 0u64)
    } else {
        (start_task_id as usize, start_sub_task_id)
    };
    let ghost target = plan_spec(*release_config, start_task_id as int, start_sub_task_id as int);
    let mut r: Vec<PlannedTask> = Vec::new();
    let mut i: usize = t0;
    while i < len
        invariant
            len == release_config.checklist@.len(),
            t0 <= i <= len,
            t0 == len ==> len == 0,
            target == plan_from(*release_config, t0 as int, s0 as int),
            r@.len() == i - t0,
            forall|k: int| 0 <= k < r@.len() ==> #[trigger] r@[k] == target[k],
        decreases len - i,
    {
        let first = if i == t0 {
            s0
        } else {
            0
        };
        r.push(PlannedTask { task_id: i as u64, first_sub_task_id: first });
        i = i + 1;
    }
    assert(r@ =~= target);
    r
}

/// The sub tasks of `task` on `os` from number `first` on, each with its
/// number.
pub fn pending_sub_tasks(task: &Task, first: u64, os: &str) -> (r: Vec<(u64, String)>)
    ensures
        r@.len() == if first as int <= sub_tasks_spec(*task, os@).len() {
            sub_tasks_spec(*task, os@).len() - first as int
        } else {
            0
        },
        forall|k: int|
            0 <= k < r@.len() ==> (#[trigger] r@[k]).0 == first + k && r@[k].1@ == sub_tasks_spec(
                *task,
                os@,
            )[first + k],
{
    let subs = task.sub_tasks(os);
    let mut r: Vec<(u64, String)> = Vec::new();
    if first >= subs.len() as u64 {
        return r;
    }
    let mut i: usize = first as usize;
    while i < subs.len()
        invariant
            first <= i <= subs@.len(),
            string_views(subs@) == sub_tasks_spec(*task, os@),
            r@.len() == i - first,
            forall|k: int|
                0 <= k < r@.len() ==> (#[trigger] r@[k]).0 == first + k && r@[k].1@
                    == sub_tasks_spec(*task, os@)[first + k],
        decreases subs@.len() - i,
    {
        assert(string_views(subs@)[i as int] == subs@[i as int]@);
        r.push((i as u64, subs[i].clone()));
        i = i + 1;
    }
    r
}

/// The `(task, sub task)` pairs of task `t` from sub task `first` on.
pub open spec fn task_steps(release: ReleaseConfig, t: int, first: int, os: Seq<char>) -> Seq<(int, int)> {
    let n = sub_task_count(release, t, os);
    Seq::new(
        if first <= n {
            (n - first) as nat
        } else {
            0
        },
        |k: int| (t, first + k),
    )
}

/// The `(task, sub task)` pairs that the tasks of `plan` go through, in
/// order.
pub open spec fn plan_steps(release: ReleaseConfig, plan: Seq<PlannedTask>, os: Seq<char>) -> Seq<(int, int)>
    decreases plan.len(),
{
    if plan.len() == 0 {
        Seq::empty()
    } else {
        task_steps(release, plan[0].task_id as int, plan[0].first_sub_task_id as int, os) + plan_steps(
            release,
            plan.drop_first(),
            os,
        )
    }
}

/// `b` comes at or after `a`.
pub open spec fn step_at_or_after(a: (int, int), b: (int, int)) -> bool {
    a == b || step_before(a, b)
}

proof fn lemma_plan_from_steps(release: ReleaseConfig, t0: int, s0: int, os: Seq<char>)
    requires
        0 <= t0 <= release.checklist@.len(),
        release.checklist@.len() <= usize::MAX,
        0 <= s0 <= u64::MAX,
    ensures
        ({
            let steps = plan_steps(release, plan_from(release, t0, s0), os);
            &&& forall|i: int|
                0 <= i < steps.len() ==> is_step(release, (#[trigger] steps[i]).0, steps[i].1, os)
                    && step_at_or_after((t0, s0), steps[i])
            &&& forall|a: int, b: int|
                is_step(release, a, b, os) && step_at_or_after((t0, s0), (a, b)) ==> exists|i: int|
                    0 <= i < steps.len() && #[trigger] steps[i] == (a, b)
            &&& forall|i: int, j: int|
                0 <= i < j < steps.len() ==> step_before(#[trigger] steps[i], #[trigger] steps[j])
        }),
    decreases release.checklist@.len() - t0,
{
    let len = release.checklist@.len();
    let plan = plan_from(release, t0, s0);
    let steps = plan_steps(release, plan, os);
    if t0 == len {
        assert(plan.len() == 0);
        assert(steps.len() == 0);
    } else {
        let rest = plan_from(release, t0 + 1, 0);
        assert(plan.drop_first() =~= rest);
        assert(plan[0].task_id as int == t0);
        assert(plan[0].first_sub_task_id as int == s0);
        lemma_plan_from_steps(release, t0 + 1, 0, os);
        let head = task_steps(release, t0, s0, os);
        let tail = plan_steps(release, rest, os);
        assert(steps == head + tail);
        assert forall|i: int| 0 <= i < steps.len() implies is_step(release, (#[trigger] steps[i]).0, steps[i].1, os)
            && step_at_or_after((t0, s0), steps[i]) by {
            if i < head.len() {
                assert(steps[i] == head[i]);
            } else {
                assert(steps[i] == tail[i - head.len()]);
            }
        }
        assert forall|a: int, b: int|
            is_step(release, a, b, os) && step_at_or_after((t0, s0), (a, b)) implies exists|i: int|
                0 <= i < steps.len() && #[trigger] steps[i] == (a, b) by {
            if a == t0 {
                let i = b - s0;
                assert(head[i] == (a, b));
                assert(steps[i] == (a, b));
            } else {
                assert(step_at_or_after((t0 + 1, 0), (a, b)));
                let j = choose|j: int| 0 <= j < tail.len() && #[trigger] tail[j] == (a, b);
                assert(steps[head.len() + j] == (a, b));
            }
        }
        assert forall|i: int, j: int| 0 <= i < j < steps.len() implies step_before(
            #[trigger] steps[i],
            #[trigger] steps[j],
        ) by {
            if j < head.len() {
                assert(steps[i] == head[i]);
                assert(steps[j] == head[j]);
            } else if i < head.len() {
                assert(steps[i] == head[i]);
                assert(steps[j] == tail[j - head.len()]);
                assert(step_at_or_after((t0 + 1, 0), tail[j - head.len()]));
            } else {
                assert(steps[i] == tail[i - head.len()]);
                assert(steps[j] == tail[j - head.len()]);
            }
        }
    }
}


/// Resuming a halted run starts right after its last checked sub task: if
/// sub task `s` of task `t` was checked last and the user resumes, the run
/// starts at the next sub task of the same task, or at the first of the
/// next task, and that start comes after `(t, s)`.
pub proof fn law_resume_starts_after_checkpoint(release: ReleaseConfig, halt: HaltConfig, os: Seq<char>)
    requires
        halt.version@ == release.version@,
        is_step(release, halt.last_checked.task_id as int, halt.last_checked.sub_task_id as int, os),
    ensures
        start_ids_spec(release, Some(&halt), true, os) == next_after(
            release,
            halt.last_checked.task_id as int,
            halt.last_checked.sub_task_id as int,
            os,
        ),
        step_before(
            (halt.last_checked.task_id as int, halt.last_checked.sub_task_id as int),
            start_ids_spec(release, Some(&halt), true, os),
        ),
{
}

/// Without a record, without the user's consent, or with a record of
/// another checklist version, a run starts at the beginning.
pub proof fn law_no_resume_starts_over(release: ReleaseConfig, halt: Option<&HaltConfig>, resume: bool, os: Seq<char>)
    requires
        !resume || halt is None || halt.unwrap().version@ != release.version@,
    ensures
        start_ids_spec(release, halt, resume, os) == (0int, 0int),
{
}

/// A run from the beginning goes through every sub task of the checklist
/// exactly once, in checklist order.
pub proof fn law_fresh_run_covers_every_step(release: ReleaseConfig, os: Seq<char>)
    requires
        release.checklist@.len() <= usize::MAX,
    ensures
        ({
            let steps = plan_steps(release, plan_spec(release, 0, 0), os);
            &&& forall|i: int| 0 <= i < steps.len() ==> is_step(release, (#[trigger] steps[i]).0, steps[i].1, os)
            &&& forall|a: int, b: int|
                is_step(release, a, b, os) ==> exists|i: int| 0 <= i < steps.len() && #[trigger] steps[i] == (a, b)
            &&& forall|i: int, j: int|
                0 <= i < j < steps.len() ==> step_before(#[trigger] steps[i], #[trigger] steps[j])
        }),
{
    let steps = plan_steps(release, plan_spec(release, 0, 0), os);
    assert(plan_spec(release, 0, 0) == plan_from(release, 0, 0));
    lemma_plan_from_steps(release, 0, 0, os);
    assert forall|a: int, b: int| is_step(release, a, b, os) implies exists|i: int|
        0 <= i < steps.len() && #[trigger] steps[i] == (a, b) by {
        assert(step_at_or_after((0, 0), (a, b)));
    }
}

/// A resumed run goes through exactly the sub tasks after the last checked
/// one, each once and in checklist order: nothing checked is done again and
/// nothing unchecked is skipped. (When the last checked sub task is the
/// final one of the checklist, the run starts over instead; see
/// `law_resume_after_final_step_starts_over`.)
pub proof fn law_resume_runs_exactly_unchecked_steps(release: ReleaseConfig, halt: HaltConfig, os: Seq<char>)
    requires
        release.checklist@.len() <= usize::MAX,
        halt.version@ == release.version@,
        halt.last_checked.sub_task_id < u64::MAX,
        is_step(release, halt.last_checked.task_id as int, halt.last_checked.sub_task_id as int, os),
        halt.last_checked.task_id + 1 < release.checklist@.len() || halt.last_checked.sub_task_id + 1
            < sub_task_count(release, halt.last_checked.task_id as int, os),
    ensures
        ({
            let last = (halt.last_checked.task_id as int, halt.last_checked.sub_task_id as int);
            let start = start_ids_spec(release, Some(&halt), true, os);
            let steps = plan_steps(release, plan_spec(release, start.0, start.1), os);
            &&& forall|i: int|
                0 <= i < steps.len() ==> is_step(release, (#[trigger] steps[i]).0, steps[i].1, os) && step_before(
                    last,
                    steps[i],
                )
            &&& forall|a: int, b: int|
                is_step(release, a, b, os) && step_before(last, (a, b)) ==> exists|i: int|
                    0 <= i < steps.len() && #[trigger] steps[i] == (a, b)
            &&& forall|i: int, j: int|
                0 <= i < j < steps.len() ==> step_before(#[trigger] steps[i], #[trigger] steps[j])
        }),
{
    let t = halt.last_checked.task_id as int;
    let s = halt.last_checked.sub_task_id as int;
    let last = (t, s);
    let start = start_ids_spec(release, Some(&halt), true, os);
    assert(start == next_after(release, t, s, os));
    assert(start.0 < release.checklist@.len());
    assert(plan_spec(release, start.0, start.1) == plan_from(release, start.0, start.1));
    lemma_plan_from_steps(release, start.0, start.1, os);
    let steps = plan_steps(release, plan_spec(release, start.0, start.1), os);
    assert forall|i: int| 0 <= i < steps.len() implies is_step(release, (#[trigger] steps[i]).0, steps[i].1, os)
        && step_before(last, steps[i]) by {
        assert(step_at_or_after(start, steps[i]));
    }
    assert forall|a: int, b: int| is_step(release, a, b, os) && step_before(last, (a, b)) implies exists|i: int|
        0 <= i < steps.len() && #[trigger] steps[i] == (a, b) by {
        assert(step_at_or_after(start, (a, b)));
    }
}

/// When the last checked sub task is the final one of the checklist, a
/// resumed run starts over from the beginning.
pub proof fn law_resume_after_final_step_starts_over(release: ReleaseConfig, halt: HaltConfig, os: Seq<char>)
    requires
        halt.version@ == release.version@,
        is_step(release, halt.last_checked.task_id as int, halt.last_checked.sub_task_id as int, os),
        halt.last_checked.task_id + 1 == release.checklist@.len(),
        halt.last_checked.sub_task_id + 1 == sub_task_count(release, halt.last_checked.task_id as int, os),
    ensures
        ({
            let start = start_ids_spec(release, Some(&halt), true, os);
            plan_spec(release, start.0, start.1) == plan_spec(release, 0, 0)
        }),
{
}


/// What the user is told of a halted run before being asked to resume it:
/// the name of the last checked task (`na` when the checklist no longer has
/// it) and whether that task was only partly checked.
pub open spec fn halt_summary_spec(release: ReleaseConfig, halt: HaltConfig, os: Seq<char>) -> (Seq<char>, bool) {
    let t = halt.last_checked.task_id as int;
    if t < release.checklist@.len() {
        (
            release.checklist@[t].name@,
            (halt.last_checked.sub_task_id as int) < sub_task_count(release, t, os) - 1,
        )
    } else {
        (seq!['n', 'a'], false)
    }
}

/// The summary of a halted run names the last checked task and calls it
/// partly checked exactly when sub tasks of that task come after the last
/// checked one; a record whose task the checklist no longer has gives
/// `na`, fully checked.
pub proof fn law_summary_partial_iff_sub_tasks_remain(release: ReleaseConfig, halt: HaltConfig, os: Seq<char>)
    ensures
        (halt.last_checked.task_id as int) < release.checklist@.len() ==> halt_summary_spec(release, halt, os) == (
            release.checklist@[halt.last_checked.task_id as int].name@,
            halt.last_checked.sub_task_id + 1 < sub_task_count(release, halt.last_checked.task_id as int, os),
        ),
        (halt.last_checked.task_id as int) >= release.checklist@.len() ==> halt_summary_spec(release, halt, os)
            == (seq!['n', 'a'], false),
{
}

/// The summary depends only on the last checked task itself: two
/// checklists that hold the same task at that place give the same summary,
/// whatever their other tasks and their lengths.
pub proof fn law_summary_depends_on_that_task_only(
    release: ReleaseConfig,
    other: ReleaseConfig,
    halt: HaltConfig,
    os: Seq<char>,
)
    requires
        (halt.last_checked.task_id as int) < release.checklist@.len(),
        (halt.last_checked.task_id as int) < other.checklist@.len(),
        other.checklist@[halt.last_checked.task_id as int] == release.checklist@[halt.last_checked.task_id as int],
    ensures
        halt_summary_spec(other, halt, os) == halt_summary_spec(release, halt, os),
{
}

/// The name of the last checked task of a halted run and whether it was
/// only partly checked, that is whether sub tasks of it remain.
pub fn last_checked_task_summary(release_config: &ReleaseConfig, halt_config: &HaltConfig, os: &str) -> (r: (
    String,
    bool,
))
    requires
        (halt_config.last_checked.task_id as int) < release_config.checklist@.len() ==> sub_task_count(
            *release_config,
            halt_config.last_checked.task_id as int,
            os@,
        ) > 0,
    ensures
        (r.0@, r.1) == halt_summary_spec(*release_config, *halt_config, os@),
{
    let t = halt_config.last_checked.task_id;
    if t < release_config.checklist.len() as u64 {
        let task = &release_config.checklist[t as usize];
        let n = task.sub_tasks(os).len();
        (task.name.clone(), halt_config.last_checked.sub_task_id < (n as u64) - 1)
    } else {
        proof { reveal_strlit("na"); }
        ("na".to_owned(), false)
    }
}

/// The instruction shown for a sub task of a manual task: its text with the
/// variables substituted, trimmed.
pub fn manual_instruction(sub_task: &str, vars_data: &VarTable, env: &VarTable) -> (r: String)
    ensures
        r@ == trim_spec(substituted_text(sub_task@, vars_data@, env@)),
{
    let text = substitute_variable_in_text(sub_task, vars_data, env);
    trim(text.as_str()).to_owned()
}

/// The command run for a sub task of an auto task: its text, trimmed.
pub fn auto_command(sub_task: &str) -> (r: &str)
    ensures
        r@ == trim_spec(sub_task@),
{
    trim(sub_task)
}

/// The program and arguments that run `command` through the system shell:
/// `cmd /C command` on Windows, `sh -c command` elsewhere.
pub fn shell_invocation(os: &str, command: &str) -> (r: (String, Vec<String>))
    ensures
        os@ == "windows"@ ==> r.0@ == "cmd"@ && string_views(r.1@) == seq!["/C"@, command@],
        os@ != "windows"@ ==> r.0@ == "sh"@ && string_views(r.1@) == seq!["-c"@, command@],
{
    let mut args: Vec<String> = Vec::new();
    if str_equal(os, "windows") {
        args.push("/C".to_owned());
        args.push(command.to_owned());
        assert(string_views(args@) =~= seq!["/C"@, command@]);
        ("cmd".to_owned(), args)
    } else {
        args.push("-c".to_owned());
        args.push(command.to_owned());
        assert(string_views(args@) =~= seq!["-c"@, command@]);
        ("sh".to_owned(), args)
    }
}

/// The outcome of a command of an auto task: success when it exited
/// successfully, else the error naming the command, its exit code and the
/// task.
pub fn command_outcome(command: &str, task: &Task, success: bool, exit_code: Option<i32>) -> (r: Result<
    (),
    ReleezError,
>)
    ensures
        success ==> r is Ok,
        !success ==> (r matches Err(ReleezError::CommandFailed { command: c, exit_code: e, task_name: n }) && c@
            == command@ && e == exit_code && n@ == task.name@),
{
    if success {
        Ok(())
    } else {
        Err(ReleezError::CommandFailed { command: command.to_owned(), exit_code, task_name: task.name.clone() })
    }
}


/// How the work on one sub task ended.
#[derive(Clone, Copy, Debug, PartialEq, Eq, Structural)]
pub enum SubTaskOutcome {
    /// The user confirmed the instruction, or the command exited
    /// successfully.
    Completed,
    /// The command exited unsuccessfully, with this exit code if it had one.
    CommandFailed { exit_code: Option<i32> },
    /// The user asked to quit.
    QuitRequested,
}

/// What a run does after a sub task.
#[derive(Debug)]
pub enum RunAction {
    /// Record that sub task `sub_task_id` of task `task_id` was checked, and
    /// go on.
    SaveCheckpoint { task_id: u64, sub_task_id: u64 },
    /// Stop the run with this error; nothing is recorded.
    Fail(ReleezError),
    /// Stop the run at the user's request; nothing is recorded.
    Quit,
}

/// The decision after sub task `sub_task_id` of task `task_id` (whose
/// command, for a task of commands, is `command`): a completed sub task is
/// recorded as the last checked one; a failed command stops the run with
/// the error that names it; a request to quit stops the run.
pub fn after_sub_task(task: &Task, task_id: u64, sub_task_id: u64, command: &str, outcome: SubTaskOutcome) -> (r:
    RunAction)
    ensures
        outcome == SubTaskOutcome::Completed <==> r == (RunAction::SaveCheckpoint { task_id, sub_task_id }),
        outcome is QuitRequested <==> r is Quit,
        outcome matches SubTaskOutcome::CommandFailed { exit_code } ==> (r matches RunAction::Fail(
            ReleezError::CommandFailed { command: c, exit_code: e, task_name: n },
        ) && c@ == command@ && e == exit_code && n@ == task.name@),
{
    match outcome {
        SubTaskOutcome::Completed => RunAction::SaveCheckpoint { task_id, sub_task_id },
        SubTaskOutcome::CommandFailed { exit_code } => RunAction::Fail(
            ReleezError::CommandFailed { command: command.to_owned(), exit_code, task_name: task.name.clone() },
        ),
        SubTaskOutcome::QuitRequested => RunAction::Quit,
    }
}

/// The number of leading outcomes that are `Completed`: where a run that
/// meets these outcomes stops.
pub open spec fn completed_prefix(outcomes: Seq<SubTaskOutcome>) -> nat
    decreases outcomes.len(),
{
    if outcomes.len() == 0 || outcomes[0] != SubTaskOutcome::Completed {
        0
    } else {
        1 + completed_prefix(outcomes.drop_first())
    }
}

/// The checkpoints a run writes when it goes through `steps` and meets
/// `outcomes`, deciding after each sub task by `after_sub_task`: one for
/// each completed sub task, until the first sub task that is not completed,
/// after which the run stops.
pub open spec fn written_checkpoints(steps: Seq<(int, int)>, outcomes: Seq<SubTaskOutcome>) -> Seq<(int, int)>
    decreases steps.len(),
{
    if steps.len() == 0 || outcomes.len() == 0 || outcomes[0] != SubTaskOutcome::Completed {
        Seq::empty()
    } else {
        seq![steps[0]] + written_checkpoints(steps.drop_first(), outcomes.drop_first())
    }
}

/// The checkpoints of a run are its completed sub tasks, in order, up to
/// the first one that failed or was quit; nothing is written from there
/// on, and the last checkpoint written is the last completed sub task.
pub proof fn law_checkpoints_record_completed_steps(steps: Seq<(int, int)>, outcomes: Seq<SubTaskOutcome>)
    requires
        steps.len() == outcomes.len(),
    ensures
        ({
            let k = completed_prefix(outcomes) as int;
            &&& k <= steps.len()
            &&& written_checkpoints(steps, outcomes) == steps.take(k)
            &&& forall|i: int| 0 <= i < k ==> #[trigger] outcomes[i] == SubTaskOutcome::Completed
            &&& k < steps.len() ==> outcomes[k] != SubTaskOutcome::Completed
            &&& k > 0 ==> written_checkpoints(steps, outcomes).last() == steps[k - 1]
        }),
    decreases steps.len(),
{
    let k = completed_prefix(outcomes) as int;
    if steps.len() == 0 || outcomes[0] != SubTaskOutcome::Completed {
        assert(steps.take(0) =~= Seq::<(int, int)>::empty());
    } else {
        law_checkpoints_record_completed_steps(steps.drop_first(), outcomes.drop_first());
        assert(written_checkpoints(steps, outcomes) =~= steps.take(k)) by {
            assert(steps.drop_first().take(k - 1) =~= steps.take(k).drop_first());
        }
        assert forall|i: int| 0 <= i < k implies #[trigger] outcomes[i] == SubTaskOutcome::Completed by {
            if i > 0 {
                assert(outcomes[i] == outcomes.drop_first()[i - 1]);
            }
        }
        if k < steps.len() {
            assert(outcomes[k] == outcomes.drop_first()[k - 1]);
        }
    }
}


/// Whether the pairs of `a` come in strictly increasing order.
pub open spec fn strictly_sorted(a: Seq<(int, int)>) -> bool {
    forall|i: int, j: int| 0 <= i < j < a.len() ==> step_before(#[trigger] a[i], #[trigger] a[j])
}

/// Whether `x` occurs in `a`.
pub open spec fn occurs_in(x: (int, int), a: Seq<(int, int)>) -> bool {
    exists|j: int| 0 <= j < a.len() && a[j] == x
}

proof fn lemma_sorted_same_members(a: Seq<(int, int)>, b: Seq<(int, int)>)
    requires
        strictly_sorted(a),
        strictly_sorted(b),
        forall|i: int| 0 <= i < a.len() ==> occurs_in(#[trigger] a[i], b),
        forall|j: int| 0 <= j < b.len() ==> occurs_in(#[trigger] b[j], a),
    ensures
        a == b,
    decreases a.len(),
{
    if a.len() == 0 {
        if b.len() > 0 {
            assert(occurs_in(b[0], a));
        }
        assert(a =~= b);
    } else {
        assert(occurs_in(a[0], b));
        if b.len() == 0 {
            assert(false);
        }
        assert(occurs_in(b[0], a));
        let i0 = choose|i: int| 0 <= i < a.len() && a[i] == b[0];
        let j0 = choose|j: int| 0 <= j < b.len() && b[j] == a[0];
        if i0 > 0 {
            assert(step_before(a[0], a[i0]));
            if j0 > 0 {
                assert(step_before(b[0], b[j0]));
            }
        }
        assert(a[0] == b[0]);
        let a1 = a.drop_first();
        let b1 = b.drop_first();
        assert forall|i: int| 0 <= i < a1.len() implies occurs_in(#[trigger] a1[i], b1) by {
            assert(a1[i] == a[i + 1]);
            assert(occurs_in(a[i + 1], b));
            let j = choose|j: int| 0 <= j < b.len() && b[j] == a[i + 1];
            assert(step_before(a[0], a[i + 1]));
            assert(j != 0);
            assert(b1[j - 1] == b[j]);
        }
        assert forall|j: int| 0 <= j < b1.len() implies occurs_in(#[trigger] b1[j], a1) by {
            assert(b1[j] == b[j + 1]);
            assert(occurs_in(b[j + 1], a));
            let i = choose|i: int| 0 <= i < a.len() && a[i] == b[j + 1];
            assert(step_before(b[0], b[j + 1]));
            assert(i != 0);
            assert(a1[i - 1] == a[i]);
        }
        assert forall|i: int, j: int| 0 <= i < j < a1.len() implies step_before(#[trigger] a1[i], #[trigger] a1[j]) by {
            assert(a1[i] == a[i + 1] && a1[j] == a[j + 1]);
        }
        assert forall|i: int, j: int| 0 <= i < j < b1.len() implies step_before(#[trigger] b1[i], #[trigger] b1[j]) by {
            assert(b1[i] == b[i + 1] && b1[j] == b[j + 1]);
        }
        lemma_sorted_same_members(a1, b1);
        assert(a =~= b) by {
            assert forall|i: int| 0 <= i < a.len() implies a[i] == b[i] by {
                if i > 0 {
                    assert(a[i] == a1[i - 1] && b[i] == b1[i - 1]);
                }
            }
        }
    }
}

/// A run that stopped after the `k`-th sub task of the checklist and is
/// resumed from the checkpoint it wrote goes through exactly the sub tasks
/// that the interrupted run had not reached, in the same order: the
/// resumed run continues the interrupted one where it broke off.
pub proof fn law_resume_continues_interrupted_run(release: ReleaseConfig, halt: HaltConfig, k: int, os: Seq<char>)
    requires
        release.checklist@.len() <= usize::MAX,
        halt.version@ == release.version@,
        halt.last_checked.sub_task_id < u64::MAX,
        0 < k < plan_steps(release, plan_spec(release, 0, 0), os).len(),
        (halt.last_checked.task_id as int, halt.last_checked.sub_task_id as int) == plan_steps(
            release,
            plan_spec(release, 0, 0),
            os,
        )[k - 1],
    ensures
        ({
            let start = start_ids_spec(release, Some(&halt), true, os);
            plan_steps(release, plan_spec(release, start.0, start.1), os) == plan_steps(
                release,
                plan_spec(release, 0, 0),
                os,
            ).skip(k)
        }),
{
    let steps = plan_steps(release, plan_spec(release, 0, 0), os);
    law_fresh_run_covers_every_step(release, os);
    let t = halt.last_checked.task_id as int;
    let s = halt.last_checked.sub_task_id as int;
    let last = (t, s);
    assert(steps[k - 1] == last);
    assert(is_step(release, steps[k - 1].0, steps[k - 1].1, os));
    assert(is_step(release, steps[k].0, steps[k].1, os));
    assert(step_before(steps[k - 1], steps[k]));
    assert(t + 1 < release.checklist@.len() || s + 1 < sub_task_count(release, t, os));
    law_resume_runs_exactly_unchecked_steps(release, halt, os);
    let start = start_ids_spec(release, Some(&halt), true, os);
    let resumed = plan_steps(release, plan_spec(release, start.0, start.1), os);
    let rest = steps.skip(k);
    assert forall|i: int, j: int| 0 <= i < j < rest.len() implies step_before(#[trigger] rest[i], #[trigger] rest[j]) by {
        assert(rest[i] == steps[k + i] && rest[j] == steps[k + j]);
    }
    assert forall|i: int| 0 <= i < resumed.len() implies occurs_in(#[trigger] resumed[i], rest) by {
        let x = resumed[i];
        assert(is_step(release, x.0, x.1, os) && step_before(last, x));
        let m = choose|m: int| 0 <= m < steps.len() && #[trigger] steps[m] == (x.0, x.1);
        if m <= k - 1 {
            if m < k - 1 {
                assert(step_before(steps[m], steps[k - 1]));
            }
        }
        assert(m >= k);
        assert(rest[m - k] == steps[m]);
        assert(rest[m - k] == x);
    }
    assert forall|j: int| 0 <= j < rest.len() implies occurs_in(#[trigger] rest[j], resumed) by {
        let x = rest[j];
        assert(x == steps[k + j]);
        assert(step_before(steps[k - 1], steps[k + j]));
        assert(is_step(release, x.0, x.1, os));
        let i = choose|i: int| 0 <= i < resumed.len() && #[trigger] resumed[i] == (x.0, x.1);
        assert(resumed[i] == x);
    }
    lemma_sorted_same_members(resumed, rest);
}

} // verus!
