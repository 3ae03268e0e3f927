use octane::builtins::{
    calc_message, dispatch_line, error_message, kill_failure_message, kill_success_message,
    no_such_process_message, recognize_builtin, register_background_job, run_builtin,
    run_error_message, wait_error_message, Builtin, BuiltinAction,
};
use octane::jobs::ProcessTable;

fn args(a: &[&str]) -> Vec<String> {
    a.iter().map(|s| s.to_string()).collect()
}

fn reply(action: Option<BuiltinAction<String>>) -> String {
    match action {
        Some(BuiltinAction::Reply(m)) => m,
        _ => panic!("expected a single reply"),
    }
}

#[test]
fn recognize_matches_exact_names() {
    assert_eq!(recognize_builtin("calc"), Some(Builtin::Calc));
    assert_eq!(recognize_builtin("exit"), Some(Builtin::Exit));
    assert_eq!(recognize_builtin("cd"), Some(Builtin::Cd));
    assert_eq!(recognize_builtin("pwd"), Some(Builtin::Pwd));
    assert_eq!(recognize_builtin("clear"), Some(Builtin::Clear));
    assert_eq!(recognize_builtin("jobs"), Some(Builtin::Jobs));
    assert_eq!(recognize_builtin("kill"), Some(Builtin::Kill));
    assert_eq!(recognize_builtin("Calc"), None);
    assert_eq!(recognize_builtin("ls"), None);
    assert_eq!(recognize_builtin(""), None);
}

#[test]
fn unknown_command_falls_through() {
    let mut jobs: ProcessTable<String> = ProcessTable::new();
    assert!(run_builtin("ls", &args(&["-la"]), &mut jobs).is_none());
}

#[test]
fn calc_evaluates_expression() {
    let mut jobs: ProcessTable<String> = ProcessTable::new();
    let m = reply(run_builtin("calc", &args(&["2", "+", "2", "*", "3"]), &mut jobs));
    assert_eq!(m, "8");
}

#[test]
fn calc_without_arguments_prints_usage() {
    let mut jobs: ProcessTable<String> = ProcessTable::new();
    let m = reply(run_builtin("calc", &args(&[]), &mut jobs));
    assert_eq!(m, "Usage: calc <expression>");
}

#[test]
fn calc_reports_evaluation_errors() {
    let mut jobs: ProcessTable<String> = ProcessTable::new();
    let m = reply(run_builtin("calc", &args(&["2", "+"]), &mut jobs));
    assert!(m.starts_with("Error evaluating expression: "));
}

#[test]
fn calc_message_formats_both_outcomes() {
    assert_eq!(calc_message(Ok("8".to_string())), "8");
    assert_eq!(
        calc_message(Err("boom".to_string())),
        "Error evaluating expression: boom"
    );
}

#[test]
fn cd_defaults_to_current_directory() {
    let mut jobs: ProcessTable<String> = ProcessTable::new();
    match run_builtin("cd", &args(&[]), &mut jobs) {
        Some(BuiltinAction::Chdir(d)) => assert_eq!(d, "."),
        _ => panic!("expected a directory change"),
    }
}

#[test]
fn cd_takes_its_first_argument() {
    let mut jobs: ProcessTable<String> = ProcessTable::new();
    match run_builtin("cd", &args(&["/nonexistent"]), &mut jobs) {
        Some(BuiltinAction::Chdir(d)) => assert_eq!(d, "/nonexistent"),
        _ => panic!("expected a directory change"),
    }
    assert_eq!(jobs.id_list(), Vec::<u32>::new());
}

#[test]
fn exit_pwd_clear_yield_their_actions() {
    let mut jobs: ProcessTable<String> = ProcessTable::new();
    assert!(matches!(
        run_builtin("exit", &args(&[]), &mut jobs),
        Some(BuiltinAction::Exit)
    ));
    assert!(matches!(
        run_builtin("pwd", &args(&[]), &mut jobs),
        Some(BuiltinAction::Pwd)
    ));
    assert!(matches!(
        run_builtin("clear", &args(&[]), &mut jobs),
        Some(BuiltinAction::Clear)
    ));
}

#[test]
fn jobs_lists_nothing_when_empty() {
    let mut jobs: ProcessTable<String> = ProcessTable::new();
    match run_builtin("jobs", &args(&[]), &mut jobs) {
        Some(BuiltinAction::ReplyLines(lines)) => {
            assert_eq!(lines, vec!["No background jobs"]);
        },
        _ => panic!("expected a listing"),
    }
}

#[test]
fn background_job_lifecycle() {
    let mut jobs: ProcessTable<String> = ProcessTable::new();
    let msg = register_background_job(&mut jobs, 4242, "handle".to_string());
    assert_eq!(msg, "Started background job with PID 4242");
    match run_builtin("jobs", &args(&[]), &mut jobs) {
        Some(BuiltinAction::ReplyLines(lines)) => {
            assert_eq!(lines, vec!["PID 4242 - Running"]);
        },
        _ => panic!("expected a listing"),
    }
    match run_builtin("kill", &args(&["4242"]), &mut jobs) {
        Some(BuiltinAction::Kill(pid, handle)) => {
            assert_eq!(pid, 4242);
            assert_eq!(handle, "handle");
        },
        _ => panic!("expected a termination"),
    }
    let m = reply(run_builtin("kill", &args(&["4242"]), &mut jobs));
    assert_eq!(m, "No such background process: 4242");
}

#[test]
fn jobs_lists_every_launch_once() {
    let mut jobs: ProcessTable<String> = ProcessTable::new();
    let mut printed = Vec::new();
    for pid in [7, 9, 11] {
        printed.push(register_background_job(&mut jobs, pid, format!("h{pid}")));
    }
    match run_builtin("jobs", &args(&[]), &mut jobs) {
        Some(BuiltinAction::ReplyLines(lines)) => {
            assert_eq!(lines.len(), 3);
            for (line, msg) in lines.iter().zip(printed.iter()) {
                let pid_from_jobs = line
                    .strip_prefix("PID ")
                    .and_then(|r| r.strip_suffix(" - Running"))
                    .unwrap();
                assert!(msg.ends_with(pid_from_jobs));
            }
        },
        _ => panic!("expected a listing"),
    }
}

#[test]
fn kill_removes_only_its_target() {
    let mut jobs: ProcessTable<String> = ProcessTable::new();
    for pid in [1, 2, 3] {
        register_background_job(&mut jobs, pid, format!("h{pid}"));
    }
    assert!(matches!(
        run_builtin("kill", &args(&["2"]), &mut jobs),
        Some(BuiltinAction::Kill(2, _))
    ));
    assert!(jobs.contains(1));
    assert!(!jobs.contains(2));
    assert!(jobs.contains(3));
}

#[test]
fn kill_without_argument_prints_usage() {
    let mut jobs: ProcessTable<String> = ProcessTable::new();
    let m = reply(run_builtin("kill", &args(&[]), &mut jobs));
    assert_eq!(m, "Usage: kill <pid>");
}

#[test]
fn kill_with_bad_argument_is_invalid() {
    let mut jobs: ProcessTable<String> = ProcessTable::new();
    register_background_job(&mut jobs, 5, "h".to_string());
    let m = reply(run_builtin("kill", &args(&["five"]), &mut jobs));
    assert_eq!(m, "Invalid PID");
    let m = reply(run_builtin("kill", &args(&["-5"]), &mut jobs));
    assert_eq!(m, "Invalid PID");
    assert!(jobs.contains(5));
}

#[test]
fn dispatch_line_runs_builtins() {
    let mut jobs: ProcessTable<String> = ProcessTable::new();
    match dispatch_line("calc 2 + 2 * 3", &mut jobs) {
        Some((cmd, Some(BuiltinAction::Reply(m)))) => {
            assert_eq!(cmd.name, "calc");
            assert_eq!(m, "8");
        },
        _ => panic!("expected the calc reply"),
    }
}

#[test]
fn dispatch_line_falls_through_to_the_launcher() {
    let mut jobs: ProcessTable<String> = ProcessTable::new();
    match dispatch_line("ls -la &", &mut jobs) {
        Some((cmd, None)) => {
            assert_eq!(cmd.name, "ls");
            assert_eq!(cmd.args, vec!["-la"]);
            assert!(cmd.background);
        },
        _ => panic!("expected a fall-through"),
    }
}

#[test]
fn dispatch_line_skips_empty_lines() {
    let mut jobs: ProcessTable<String> = ProcessTable::new();
    assert!(dispatch_line("", &mut jobs).is_none());
    assert!(dispatch_line("   ", &mut jobs).is_none());
    assert!(dispatch_line("&", &mut jobs).is_none());
}

#[test]
fn message_builders_match_the_shell_wording() {
    assert_eq!(kill_success_message(17), "Killed process 17");
    assert_eq!(
        kill_failure_message(17, "permission denied"),
        "Failed to kill 17: permission denied"
    );
    assert_eq!(no_such_process_message(0), "No such background process: 0");
    assert_eq!(error_message("oops"), "Error: oops");
    assert_eq!(run_error_message("oops"), "Error running command: oops");
    assert_eq!(wait_error_message("oops"), "Error waiting on process: oops");
}
