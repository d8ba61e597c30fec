use releez::runner::executor::{
    auto_command, calculate_start_task_ids, command_outcome, execution_plan, last_checked_task_summary,
    manual_instruction, pending_sub_tasks, shell_invocation, should_ask_to_resume, PlannedTask,
};
use releez::error::ReleezError;
use releez::runner::executor::{after_sub_task, RunAction, SubTaskOutcome};
use releez::types::{ConfigValue, HaltConfig, LastCheckedConfig, ReleaseConfig, Task, TaskType};
use releez::utils::var_subs::VarTable;

fn text(s: &str) -> ConfigValue {
    ConfigValue::Text(s.to_string())
}

fn list(items: &[&str]) -> ConfigValue {
    ConfigValue::List(items.iter().map(|s| text(s)).collect())
}

fn manual(name: &str, steps: &[&str]) -> Task {
    Task { name: name.to_string(), task_type: TaskType::Manual, instructions: Some(list(steps)), run: None, confirm: None }
}

fn auto(name: &str, steps: &[&str]) -> Task {
    Task { name: name.to_string(), task_type: TaskType::Auto, instructions: None, run: Some(list(steps)), confirm: None }
}

fn release() -> ReleaseConfig {
    ReleaseConfig {
        version: "1.0.0".to_string(),
        checklist: vec![
            manual("First", &["a", "b", "c"]),
            auto("Second", &["echo x"]),
            manual("Third", &["d", "e"]),
        ],
    }
}

fn halt(version: &str, task_id: u64, sub_task_id: u64) -> HaltConfig {
    HaltConfig { version: version.to_string(), last_checked: LastCheckedConfig { task_id, sub_task_id, date: 0 } }
}

#[test]
fn sub_tasks_follow_task_type() {
    let r = release();
    assert_eq!(r.checklist[0].sub_tasks("linux"), vec!["a", "b", "c"]);
    assert_eq!(r.checklist[1].sub_tasks("linux"), vec!["echo x"]);
    let t = Task { name: "x".into(), task_type: TaskType::Auto, instructions: Some(list(&["i"])), run: None, confirm: None };
    assert!(t.sub_tasks("linux").is_empty());
}

#[test]
fn fresh_start_without_halt() {
    let r = release();
    assert_eq!(calculate_start_task_ids(&r, None, true, "linux"), (0, 0));
    assert!(!should_ask_to_resume(&r, None));
}

#[test]
fn resume_within_task() {
    let r = release();
    let h = halt("1.0.0", 0, 1);
    assert!(should_ask_to_resume(&r, Some(&h)));
    assert_eq!(calculate_start_task_ids(&r, Some(&h), true, "linux"), (0, 2));
}

#[test]
fn resume_moves_to_next_task_after_last_sub_task() {
    let r = release();
    let h = halt("1.0.0", 0, 2);
    assert_eq!(calculate_start_task_ids(&r, Some(&h), true, "linux"), (1, 0));
}

#[test]
fn declined_resume_starts_over() {
    let r = release();
    let h = halt("1.0.0", 0, 1);
    assert_eq!(calculate_start_task_ids(&r, Some(&h), false, "linux"), (0, 0));
}

#[test]
fn other_version_halt_is_ignored() {
    let r = release();
    let h = halt("0.9.0", 0, 1);
    assert!(!should_ask_to_resume(&r, Some(&h)));
    assert_eq!(calculate_start_task_ids(&r, Some(&h), true, "linux"), (0, 0));
}

#[test]
fn halt_past_the_checklist_starts_over() {
    let r = release();
    let h = halt("1.0.0", 7, 0);
    assert_eq!(calculate_start_task_ids(&r, Some(&h), true, "linux"), (0, 0));
}

#[test]
fn checkpoint_record_matches_release() {
    let r = release();
    let h = HaltConfig::checked_at(&r, 2, 1, 1234);
    assert_eq!(h.version, "1.0.0");
    assert_eq!(h.last_checked, LastCheckedConfig { task_id: 2, sub_task_id: 1, date: 1234 });
    assert!(h.matches_release(&r));
}

#[test]
fn plan_from_resume_point() {
    let r = release();
    let plan = execution_plan(&r, 1, 0);
    assert_eq!(
        plan,
        vec![PlannedTask { task_id: 1, first_sub_task_id: 0 }, PlannedTask { task_id: 2, first_sub_task_id: 0 }]
    );
    let plan = execution_plan(&r, 0, 2);
    assert_eq!(plan[0], PlannedTask { task_id: 0, first_sub_task_id: 2 });
    assert_eq!(plan[1], PlannedTask { task_id: 1, first_sub_task_id: 0 });
    assert_eq!(plan.len(), 3);
}

#[test]
fn plan_past_the_end_starts_over() {
    let r = release();
    let plan = execution_plan(&r, 3, 0);
    assert_eq!(plan.len(), 3);
    assert_eq!(plan[0], PlannedTask { task_id: 0, first_sub_task_id: 0 });
}

#[test]
fn resumed_run_goes_through_the_unchecked_steps() {
    // the last checked step was (0, 1): the run continues with (0, 2), (1, 0), (2, 0), (2, 1)
    let r = release();
    let h = HaltConfig::checked_at(&r, 0, 1, 0);
    let (t, s) = calculate_start_task_ids(&r, Some(&h), true, "linux");
    let mut steps = Vec::new();
    for p in execution_plan(&r, t, s) {
        for (idx, _) in pending_sub_tasks(&r.checklist[p.task_id as usize], p.first_sub_task_id, "linux") {
            steps.push((p.task_id, idx));
        }
    }
    assert_eq!(steps, vec![(0, 2), (1, 0), (2, 0), (2, 1)]);
}

#[test]
fn pending_sub_tasks_are_numbered() {
    let r = release();
    let p = pending_sub_tasks(&r.checklist[0], 1, "linux");
    assert_eq!(p, vec![(1, "b".to_string()), (2, "c".to_string())]);
    assert!(pending_sub_tasks(&r.checklist[0], 5, "linux").is_empty());
}

#[test]
fn summary_of_partly_checked_task() {
    let r = release();
    assert_eq!(last_checked_task_summary(&r, &halt("1.0.0", 0, 1), "linux"), ("First".to_string(), true));
    assert_eq!(last_checked_task_summary(&r, &halt("1.0.0", 0, 2), "linux"), ("First".to_string(), false));
    assert_eq!(last_checked_task_summary(&r, &halt("1.0.0", 9, 0), "linux"), ("na".to_string(), false));
}

#[test]
fn manual_instruction_substitutes_and_trims() {
    let mut vars = VarTable::new();
    vars.insert("VERSION".to_string(), "1.2.3".to_string());
    let env = VarTable::new();
    assert_eq!(manual_instruction("  Tag v$VERSION now \n", &vars, &env), "Tag v1.2.3 now");
}

#[test]
fn auto_command_is_trimmed() {
    assert_eq!(auto_command("  npm publish\t"), "npm publish");
}

#[test]
fn shell_by_operating_system() {
    assert_eq!(shell_invocation("windows", "dir"), ("cmd".to_string(), vec!["/C".to_string(), "dir".to_string()]));
    assert_eq!(shell_invocation("linux", "ls"), ("sh".to_string(), vec!["-c".to_string(), "ls".to_string()]));
}

#[test]
fn failed_command_error_message() {
    let r = release();
    assert!(command_outcome("echo x", &r.checklist[1], true, Some(0)).is_ok());
    let e = command_outcome("false", &r.checklist[1], false, Some(1)).unwrap_err();
    assert_eq!(e.message(), "Failed to execute auto task command: 'false' with exit code: '1' for task: 'Second'");
    let e = command_outcome("false", &r.checklist[1], false, None).unwrap_err();
    assert_eq!(e.message(), "Failed to execute auto task command: 'false' with exit code: 'na' for task: 'Second'");
    let e = command_outcome("x", &r.checklist[1], false, Some(-2)).unwrap_err();
    assert!(matches!(e, ReleezError::CommandFailed { exit_code: Some(-2), .. }));
    assert_eq!(e.message(), "Failed to execute auto task command: 'x' with exit code: '-2' for task: 'Second'");
}

#[test]
fn fresh_run_goes_through_every_step() {
    let r = release();
    let mut steps = Vec::new();
    for p in execution_plan(&r, 0, 0) {
        for (idx, _) in pending_sub_tasks(&r.checklist[p.task_id as usize], p.first_sub_task_id, "linux") {
            steps.push((p.task_id, idx));
        }
    }
    assert_eq!(steps, vec![(0, 0), (0, 1), (0, 2), (1, 0), (2, 0), (2, 1)]);
}

#[test]
fn resume_after_final_step_starts_over() {
    let r = release();
    let h = HaltConfig::checked_at(&r, 2, 1, 0);
    let (t, s) = calculate_start_task_ids(&r, Some(&h), true, "linux");
    assert_eq!((t, s), (3, 0));
    assert_eq!(execution_plan(&r, t, s), execution_plan(&r, 0, 0));
}

#[test]
fn empty_checklist_has_empty_plan() {
    let r = ReleaseConfig { version: "1".into(), checklist: vec![] };
    assert!(execution_plan(&r, 0, 0).is_empty());
    assert_eq!(calculate_start_task_ids(&r, Some(&halt("1", 0, 0)), true, "linux"), (0, 0));
}

#[test]
fn decision_after_sub_task() {
    let r = release();
    assert!(matches!(
        after_sub_task(&r.checklist[1], 1, 0, "echo x", SubTaskOutcome::Completed),
        RunAction::SaveCheckpoint { task_id: 1, sub_task_id: 0 }
    ));
    assert!(matches!(after_sub_task(&r.checklist[0], 0, 2, "c", SubTaskOutcome::QuitRequested), RunAction::Quit));
    match after_sub_task(&r.checklist[1], 1, 0, "false", SubTaskOutcome::CommandFailed { exit_code: Some(3) }) {
        RunAction::Fail(e) => assert_eq!(
            e.message(),
            "Failed to execute auto task command: 'false' with exit code: '3' for task: 'Second'"
        ),
        _ => panic!("a failed command stops the run"),
    }
}

#[test]
fn interrupted_run_resumes_with_the_rest() {
    // a run that completed (0,0) and (0,1) and failed at (0,2) resumes at (0,2)
    let r = release();
    let h = HaltConfig::checked_at(&r, 0, 1, 0);
    let (t, s) = calculate_start_task_ids(&r, Some(&h), true, "linux");
    let mut steps = Vec::new();
    for p in execution_plan(&r, t, s) {
        for (idx, _) in pending_sub_tasks(&r.checklist[p.task_id as usize], p.first_sub_task_id, "linux") {
            steps.push((p.task_id, idx));
        }
    }
    assert_eq!(steps, vec![(0, 2), (1, 0), (2, 0), (2, 1)]);
}
