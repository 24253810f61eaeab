use factotum::factfile::{Factfile, TaskSpec, OnResult};
use factotum::graph::validate_start_task;
use factotum::executor::{Execution, ExecutionEvent, State};
use factotum::classify::{classify_code, CodeClass};

fn task(name: &str, deps: Vec<&str>, cont: Vec<i32>, term: Vec<i32>) -> TaskSpec {
    TaskSpec {
        name: name.to_string(),
        depends_on: deps.into_iter().map(|d| d.to_string()).collect(),
        executor: "".to_string(),
        command: "".to_string(),
        arguments: vec![],
        on_result: OnResult { continue_job: cont, terminate_job: term },
    }
}

#[test]
fn test_start_task_validation_not_present() {
    let mut factfile = Factfile::new("N/A", "test");

    match validate_start_task(&factfile, "something") {
        Err(r) => assert_eq!(r, "the task specified could not be found"),
        _ => unreachable!("validation did not fail"),
    }

    factfile.add_task("something", &vec![], "", "", &vec![], &vec![], &vec![]);
    if let Err(_) = validate_start_task(&factfile, "something") {
        unreachable!("validation failed when task present")
    }
}

#[test]
fn test_start_task_cycles() {
    let mut factfile = Factfile::new("N/A", "test");

    let task_a = task("a", vec![], vec![], vec![]);
    let task_b = task("b", vec!["a"], vec![], vec![]);
    let task_c = task("c", vec!["a"], vec![], vec![]);
    let task_d = task("d", vec!["c", "b"], vec![], vec![]);

    factfile.add_task_obj(&task_a);
    factfile.add_task_obj(&task_b);
    factfile.add_task_obj(&task_c);
    factfile.add_task_obj(&task_d);

    match validate_start_task(&factfile, "c") {
        Err(r) => {
            assert_eq!(r,
                       "the job cannot be started here without triggering prior tasks")
        }
        _ => unreachable!("the task validated when it shouldn't have"),
    }
}

#[test]
fn cycle_is_rejected_at_planning() {
    let mut ff = Factfile::new("N/A", "cycle");
    ff.add_task_obj(&task("a", vec!["b"], vec![0], vec![]));
    ff.add_task_obj(&task("b", vec!["a"], vec![0], vec![]));
    let selected = vec![true, true];
    match ff.topological_levels(&selected) {
        Err(m) => assert_eq!(m, "cycle detected"),
        Ok(_) => panic!("a cyclic job must not plan"),
    }
}

#[test]
fn linear_chain_plans_one_task_per_level() {
    let mut ff = Factfile::new("N/A", "chain");
    ff.add_task_obj(&task("a", vec![], vec![0], vec![]));
    ff.add_task_obj(&task("b", vec!["a"], vec![0], vec![]));
    ff.add_task_obj(&task("c", vec!["b"], vec![0], vec![]));
    let selected = vec![true, true, true];
    let levels = ff.topological_levels(&selected).expect("chain plans");
    assert_eq!(levels, vec![vec![0], vec![1], vec![2]]);
}

#[test]
fn diamond_plans_parallel_middle_level() {
    let mut ff = Factfile::new("N/A", "diamond");
    ff.add_task_obj(&task("a", vec![], vec![0], vec![]));
    ff.add_task_obj(&task("b", vec!["a"], vec![0], vec![]));
    ff.add_task_obj(&task("c", vec!["a"], vec![0], vec![]));
    ff.add_task_obj(&task("d", vec!["b", "c"], vec![0], vec![]));
    let selected = vec![true, true, true, true];
    let levels = ff.topological_levels(&selected).expect("diamond plans");
    assert_eq!(levels, vec![vec![0], vec![1, 2], vec![3]]);
}

#[test]
fn reach_set_marks_descendants_only() {
    let mut ff = Factfile::new("N/A", "diamond");
    ff.add_task_obj(&task("a", vec![], vec![0], vec![]));
    ff.add_task_obj(&task("b", vec!["a"], vec![0], vec![]));
    ff.add_task_obj(&task("c", vec!["a"], vec![0], vec![]));
    ff.add_task_obj(&task("d", vec!["b", "c"], vec![0], vec![]));
    let marked = ff.reach_set(1);
    assert_eq!(marked, vec![false, true, false, true]);
}

#[test]
fn terminate_code_classifies_as_early_finish_not_failure() {
    // a return code that equals the sole element of terminate_job
    let cont = vec![0];
    let term = vec![3];
    assert_eq!(classify_code(&cont, &term, 3), CodeClass::TerminateEarly);
    assert_eq!(classify_code(&cont, &term, 0), CodeClass::Continue);
    assert_eq!(classify_code(&cont, &term, 7), CodeClass::Unrecognized);
}

#[test]
fn continue_wins_when_checked_first() {
    let cont = vec![0, 1];
    let term = vec![2];
    assert_eq!(classify_code(&cont, &term, 1), CodeClass::Continue);
    assert_eq!(classify_code(&cont, &term, 2), CodeClass::TerminateEarly);
}

#[test]
fn run_opens_with_run_started_and_dispatches_roots() {
    let mut ff = Factfile::new("{}", "chain");
    ff.add_task_obj(&task("a", vec![], vec![0], vec![]));
    ff.add_task_obj(&task("b", vec!["a"], vec![0], vec![]));
    let mut e = Execution::new(ff, None).expect("acyclic job starts");
    assert_eq!(e.events, vec![ExecutionEvent::RunStarted]);
    assert_eq!(e.level, 0);
    let started = e.start_level("2000-01-01T00:00:00Z");
    assert_eq!(started, vec![0]);
    assert!(matches!(e.records[0].state, State::Running));
    assert!(matches!(e.records[1].state, State::Waiting));
    assert_eq!(e.events, vec![ExecutionEvent::RunStarted, ExecutionEvent::TaskStarted(0)]);
    assert_eq!(e.records[0].run_started.as_deref(), Some("2000-01-01T00:00:00Z"));
}

#[test]
fn missing_start_task_refuses_the_run() {
    let mut ff = Factfile::new("{}", "solo");
    ff.add_task_obj(&task("a", vec![], vec![0], vec![]));
    match Execution::new(ff, Some("ghost-task")) {
        Err(m) => assert_eq!(m, "the task specified could not be found"),
        Ok(_) => panic!("an unknown start task must be refused"),
    }
}

#[test]
fn start_task_selects_descendants() {
    let mut ff = Factfile::new("{}", "fork");
    ff.add_task_obj(&task("a", vec![], vec![0], vec![]));
    ff.add_task_obj(&task("b", vec!["a"], vec![0], vec![]));
    ff.add_task_obj(&task("c", vec!["b"], vec![0], vec![]));
    let e = Execution::new(ff, Some("b")).expect("start point accepted");
    assert_eq!(e.selected, vec![false, true, true]);
    assert_eq!(e.plan, vec![vec![1], vec![2]]);
}
