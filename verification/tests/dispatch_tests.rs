use script_host::CancelToken;
use script_host::Execution;
use script_host::Outcome;
use script_host::RunResult;
use script_host::render_response;

#[test]
fn completed_run_answers_with_the_value() {
    let mut e = Execution::create();
    e.bind_host_api();
    e.begin_compile();
    e.finish_compile();
    e.arm_watchdog();
    e.begin_run();
    e.finish_run(RunResult::Value("v".to_string()));
    let o = e.into_outcome();
    assert!(matches!(o, Outcome::Completed(_)));
    assert_eq!(render_response(&o), "v");
}

#[test]
fn killed_run_reports_terminated() {
    let mut e = Execution::create();
    e.bind_host_api();
    e.begin_compile();
    e.finish_compile();
    e.arm_watchdog();
    assert!(e.watchdog_state());
    e.begin_run();
    e.finish_run(RunResult::Killed);
    let o = e.into_outcome();
    assert!(matches!(o, Outcome::Terminated));
    assert_eq!(render_response(&o), "script terminated");
}

#[test]
fn script_failure_reports_runtime_error() {
    let mut e = Execution::create();
    e.bind_host_api();
    e.begin_compile();
    e.finish_compile();
    e.arm_watchdog();
    e.begin_run();
    e.finish_run(RunResult::Error("boom".to_string()));
    let o = e.into_outcome();
    assert!(matches!(o, Outcome::RuntimeError(_)));
    assert_eq!(render_response(&o), "runtime error: boom");
}

#[test]
fn compile_error_never_arms_a_watchdog() {
    let mut e = Execution::create();
    e.bind_host_api();
    e.begin_compile();
    assert!(!e.watchdog_state());
    e.fail_compile("unexpected token".to_string());
    assert!(!e.watchdog_state());
    let o = e.into_outcome();
    assert!(matches!(o, Outcome::CompileError(_)));
    assert_eq!(render_response(&o), "compile error: unexpected token");
}

#[test]
fn cancellation_fires_once_and_is_idempotent() {
    let mut t = CancelToken::new();
    assert!(t.trigger());
    assert!(!t.trigger());
    assert!(!t.trigger());
}

#[test]
fn cancellation_after_target_gone_is_a_noop() {
    let mut t = CancelToken::new();
    t.target_gone();
    assert!(!t.trigger());

    let mut finished = CancelToken::new();
    assert!(finished.trigger());
    finished.target_gone();
    assert!(!finished.trigger());
}
