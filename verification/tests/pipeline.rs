use factotum::factfile::{Factfile, TaskSpec, OnResult};
use factotum::executor::{Execution, ExecutionEvent, RunDuration, RunResult, State};
use factotum::report::get_task_results_str;
use factotum::webhook::{backoff_delay_ms, delivery_action, DeliveryAction, WebhookCounters};
use factotum::dot::dot;
use factotum::{PROC_EXEC_ERROR, PROC_PARSE_ERROR, PROC_SUCCESS};
use factotum::executor::truncate_capture;

fn task(name: &str, deps: Vec<&str>, cont: Vec<i32>, term: Vec<i32>) -> TaskSpec {
    TaskSpec {
        name: name.to_string(),
        depends_on: deps.into_iter().map(|d| d.to_string()).collect(),
        executor: "shell".to_string(),
        command: "true".to_string(),
        arguments: vec![],
        on_result: OnResult { continue_job: cont, terminate_job: term },
    }
}

fn exit_with(code: i32) -> RunResult {
    RunResult {
        duration: RunDuration { secs: 0, nanos: 0 },
        task_execution_error: None,
        stdout: None,
        stderr: None,
        return_code: code,
    }
}

fn run_to_end(e: &mut Execution, codes: &[(usize, i32)]) {
    while !e.is_complete() {
        let started = e.start_level("2020-01-01T00:00:00Z");
        for t in started {
            let code = codes.iter().find(|(u, _)| *u == t).map(|(_, c)| *c).unwrap_or(0);
            e.finish_task(t, exit_with(code));
        }
        e.settle_level();
    }
}

fn finished_order(e: &Execution) -> Vec<usize> {
    e.events
        .iter()
        .filter_map(|ev| match ev {
            ExecutionEvent::TaskFinished(t) => Some(*t),
            _ => None,
        })
        .collect()
}

#[test]
fn linear_chain_all_success() {
    let mut ff = Factfile::new("{}", "chain");
    ff.add_task_obj(&task("a", vec![], vec![0], vec![]));
    ff.add_task_obj(&task("b", vec!["a"], vec![0], vec![]));
    ff.add_task_obj(&task("c", vec!["b"], vec![0], vec![]));
    assert!(ff.validate().is_ok());
    let mut e = Execution::new(ff, None).expect("chain runs");
    run_to_end(&mut e, &[]);
    for rec in &e.records {
        assert!(matches!(rec.state, State::Success));
    }
    assert_eq!(e.run_exit_code(), PROC_SUCCESS);
    assert_eq!(finished_order(&e), vec![0, 1, 2]);
}

#[test]
fn diamond_terminate_code_noops_and_skips() {
    let mut ff = Factfile::new("{}", "diamond");
    ff.add_task_obj(&task("a", vec![], vec![0], vec![]));
    ff.add_task_obj(&task("b", vec!["a"], vec![0], vec![]));
    ff.add_task_obj(&task("c", vec!["a"], vec![0], vec![3]));
    ff.add_task_obj(&task("d", vec!["b", "c"], vec![0], vec![]));
    let mut e = Execution::new(ff, None).expect("diamond runs");
    run_to_end(&mut e, &[(2, 3)]);
    assert!(matches!(e.records[0].state, State::Success));
    assert!(matches!(e.records[1].state, State::Success));
    assert!(matches!(e.records[2].state, State::SuccessNoop));
    match &e.records[3].state {
        State::Skipped(reason) => assert_eq!(reason, "skipped because of task 'c'"),
        other => panic!("d must be skipped, found {:?}", other),
    }
    assert!(e.has_early_finish());
    assert!(!e.has_failed_task());
    assert_eq!(e.run_exit_code(), PROC_SUCCESS);
}

#[test]
fn diamond_unrecognized_code_fails_and_skips() {
    let mut ff = Factfile::new("{}", "diamond");
    ff.add_task_obj(&task("a", vec![], vec![0], vec![]));
    ff.add_task_obj(&task("b", vec!["a"], vec![0], vec![]));
    ff.add_task_obj(&task("c", vec!["a"], vec![0], vec![3]));
    ff.add_task_obj(&task("d", vec!["b", "c"], vec![0], vec![]));
    let mut e = Execution::new(ff, None).expect("diamond runs");
    run_to_end(&mut e, &[(2, 7)]);
    assert!(matches!(e.records[0].state, State::Success));
    assert!(matches!(e.records[1].state, State::Success));
    match &e.records[2].state {
        State::Failed(reason) => assert_eq!(reason, "return code 7 not recognized"),
        other => panic!("c must fail, found {:?}", other),
    }
    assert!(matches!(e.records[3].state, State::Skipped(_)));
    assert_eq!(e.run_exit_code(), PROC_EXEC_ERROR);
}

#[test]
fn launch_error_fails_task_with_its_message() {
    let mut ff = Factfile::new("{}", "solo");
    ff.add_task_obj(&task("a", vec![], vec![0], vec![]));
    let mut e = Execution::new(ff, None).expect("solo runs");
    let started = e.start_level("t");
    assert_eq!(started, vec![0]);
    e.finish_task(
        0,
        RunResult {
            duration: RunDuration { secs: 0, nanos: 0 },
            task_execution_error: Some("No such file or directory".to_string()),
            stdout: None,
            stderr: None,
            return_code: 0,
        },
    );
    match &e.records[0].state {
        State::Failed(reason) => assert_eq!(reason, "No such file or directory"),
        other => panic!("launch errors must fail the task, found {:?}", other),
    }
}

#[test]
fn cycle_refuses_run_with_parse_error_exit() {
    let mut ff = Factfile::new("{}", "cycle");
    ff.add_task_obj(&task("a", vec!["b"], vec![0], vec![]));
    ff.add_task_obj(&task("b", vec!["a"], vec![0], vec![]));
    match Execution::new(ff, None) {
        Err(m) => assert_eq!(m, "cycle detected"),
        Ok(_) => panic!("a cyclic job must not run"),
    }
    assert_eq!(PROC_PARSE_ERROR, 1);
}

#[test]
fn empty_job_summary_line() {
    let ff = Factfile::new("{}", "empty");
    let mut e = Execution::new(ff, None).expect("empty job runs");
    run_to_end(&mut e, &[]);
    assert_eq!(e.run_exit_code(), PROC_SUCCESS);
    let (stdout, stderr) = get_task_results_str(&e.records);
    assert_eq!(stdout, "0/0 tasks run in 0.0s\n");
    assert_eq!(stderr, "");
}

#[test]
fn simulation_rerun_is_all_success() {
    let mut ff = Factfile::new("{}", "oddjob");
    ff.add_task_obj(&task("a", vec![], vec![1], vec![5]));
    ff.add_task_obj(&task("b", vec!["a"], vec![], vec![0]));
    assert!(ff.validate().is_ok());
    for _ in 0..2 {
        let sim = ff.with_continue_on_zero();
        let mut e = Execution::new(sim, None).expect("simulation plans");
        e.run_simulation();
        for rec in &e.records {
            assert!(matches!(rec.state, State::Success));
        }
        assert_eq!(e.run_exit_code(), PROC_SUCCESS);
    }
}

#[test]
fn validate_reports_first_violation() {
    let mut dup = Factfile::new("{}", "dup");
    dup.add_task_obj(&task("a", vec![], vec![0], vec![]));
    dup.add_task_obj(&task("a", vec![], vec![0], vec![]));
    assert_eq!(dup.validate(), Err("duplicate task name"));

    let mut ghost_dep = Factfile::new("{}", "ghost");
    ghost_dep.add_task_obj(&task("a", vec!["nowhere"], vec![0], vec![]));
    assert_eq!(ghost_dep.validate(), Err("unknown dependency"));

    let mut overlap = Factfile::new("{}", "overlap");
    overlap.add_task_obj(&task("a", vec![], vec![0, 3], vec![3]));
    assert_eq!(overlap.validate(), Err("continue_job and terminate_job overlap"));

    let mut good = Factfile::new("{}", "good");
    good.add_task_obj(&task("a", vec![], vec![0], vec![3]));
    good.add_task_obj(&task("b", vec!["a"], vec![0], vec![]));
    assert_eq!(good.validate(), Ok(()));
}

#[test]
fn dot_emits_every_edge() {
    let mut ff = Factfile::new("{}", "diamond");
    ff.add_task_obj(&task("a", vec![], vec![0], vec![]));
    ff.add_task_obj(&task("b", vec!["a"], vec![0], vec![]));
    ff.add_task_obj(&task("c", vec!["a"], vec![0], vec![]));
    ff.add_task_obj(&task("d", vec!["b", "c"], vec![0], vec![]));
    let out = dot(&ff, None).expect("dot emits");
    assert_eq!(
        out,
        "digraph factotum {\n  \"a\" -> \"b\";\n  \"a\" -> \"c\";\n  \"b\" -> \"d\";\n  \"c\" -> \"d\";\n}\n"
    );
    assert!(dot(&ff, Some("a")).is_ok());
    assert_eq!(dot(&ff, Some("b")), Err("the job cannot be started here."));
    assert_eq!(dot(&ff, Some("zz")), Err("the task specified could not be found"));
}

#[test]
fn webhook_retries_then_delivers() {
    let responses: Vec<u16> = vec![500, 500, 200];
    let max_attempts: u32 = 5;
    let mut counters = WebhookCounters::new();
    counters.record_event();
    let mut attempts: u32 = 0;
    let mut delivered = false;
    for status in responses {
        match delivery_action(status, attempts, max_attempts) {
            DeliveryAction::Delivered => {
                delivered = true;
                break;
            }
            DeliveryAction::Retry => {
                let delay = backoff_delay_ms(attempts, 987654321);
                assert!(delay <= 60_000);
                attempts += 1;
            }
            DeliveryAction::GiveUp => break,
        }
    }
    assert!(delivered);
    counters.record_success();
    assert!(attempts <= max_attempts);
    assert_eq!(counters.success_count, 1);
    assert!(counters.events_received >= counters.success_count);
}

#[test]
fn backoff_floor_grows_and_stays_bounded() {
    let mut prev_floor: u64 = 0;
    for attempt in 0u32..20 {
        let d = backoff_delay_ms(attempt, 424242);
        assert!(d <= 60_000);
        let floor = std::cmp::min(attempt as u64 * 6000, 54_000);
        assert!(d >= floor);
        assert!(floor >= prev_floor);
        prev_floor = floor;
    }
}

#[test]
fn capture_truncates_at_exact_cap_with_marker() {
    assert_eq!(truncate_capture("abcdefgh", 3), "abc\n[truncated]\n");
    assert_eq!(truncate_capture("abcdefgh", 8), "abcdefgh");
    assert_eq!(truncate_capture("abcdefgh", 100), "abcdefgh");
}

#[test]
fn dot_round_trips_the_edge_set() {
    let mut ff = Factfile::new("{}", "diamond");
    ff.add_task_obj(&task("a", vec![], vec![0], vec![]));
    ff.add_task_obj(&task("b", vec!["a"], vec![0], vec![]));
    ff.add_task_obj(&task("c", vec!["a"], vec![0], vec![]));
    ff.add_task_obj(&task("d", vec!["b", "c"], vec![0], vec![]));
    let out = dot(&ff, None).expect("dot emits");
    let mut edges: Vec<(String, String)> = vec![];
    for line in out.lines() {
        if let Some(rest) = line.trim().strip_prefix('"') {
            let parts: Vec<&str> = rest.split("\" -> \"").collect();
            if parts.len() == 2 {
                let dep = parts[0].to_string();
                let name = parts[1].trim_end_matches("\";").to_string();
                edges.push((dep, name));
            }
        }
    }
    let expected: Vec<(String, String)> = vec![
        ("a".to_string(), "b".to_string()),
        ("a".to_string(), "c".to_string()),
        ("b".to_string(), "d".to_string()),
        ("c".to_string(), "d".to_string()),
    ];
    assert_eq!(edges, expected);
}
