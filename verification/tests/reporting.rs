use factotum::executor::{RunDuration, RunResult, State, TaskRecord};
use factotum::report::{duration_to_string, get_task_result_line_str, get_task_results_str};
use factotum::tags::get_tag_map;
use factotum::webhook::is_valid_url;

#[test]
fn get_duration_under_minute() {
    assert_eq!(duration_to_string(2, 500000099), "2.5s".to_string());
    assert_eq!(duration_to_string(0, 0), "0.0s".to_string());
}

#[test]
fn get_duration_under_hour() {
    assert_eq!(duration_to_string(62, 500000099), "1m, 2s".to_string());
    assert_eq!(duration_to_string(59 * 60 + 59, 0), "59m, 59s".to_string());
}

#[test]
fn get_duration_with_hours() {
    assert_eq!(duration_to_string(3600, 0), "1h, 0m, 0s".to_string());
    assert_eq!(duration_to_string(3600 * 10 + 63, 0), "10h, 1m, 3s".to_string());
}

#[test]
fn test_tag_map() {
    let easy = get_tag_map(&vec!["hello,world".to_string()]);
    assert_eq!(easy, vec![("hello".to_string(), "world".to_string())]);

    let trim_leading_trailing = get_tag_map(&vec!["  hello   ,  world   ".to_string()]);
    assert_eq!(trim_leading_trailing, vec![("hello".to_string(), "world".to_string())]);

    let missing_value = get_tag_map(&vec!["  hello   ".to_string()]);
    assert_eq!(missing_value, vec![("hello".to_string(), "".to_string())]);

    let empty = get_tag_map(&vec![" ".to_string()]);
    assert!(empty.is_empty());

    let empty_key = get_tag_map(&vec![" , asdas".to_string()]);
    assert!(empty_key.is_empty());

    let with_comma = get_tag_map(&vec!["the rain,first,, wow,,".to_string()]);
    assert_eq!(with_comma, vec![("the rain".to_string(), "first wow".to_string())]);
}

#[test]
fn tag_map_later_key_overwrites() {
    let tags = get_tag_map(&vec!["env,dev".to_string(), "env,prod".to_string()]);
    assert_eq!(tags, vec![("env".to_string(), "prod".to_string())]);
}

#[test]
fn test_is_valid_url() {
    match is_valid_url("http://") {
        Ok(_) => panic!("http:// is not a valid url"),
        Err(msg) => assert_eq!(msg, "empty host"),
    }

    match is_valid_url("http://potato.com/") {
        Ok(_) => (),
        Err(_) => panic!("http://potato.com/ is a valid url"),
    }

    match is_valid_url("https://potato.com/") {
        Ok(_) => (),
        Err(_) => panic!("https://potato.com/ is a valid url"),
    }

    match is_valid_url("potato.com/") {
        Ok(_) => panic!("no http/s?"),
        Err(msg) => assert_eq!(msg, "URL must begin with 'http://' or 'https://'."),
    }
}

fn record(
    name: &str,
    state: State,
    started: Option<&str>,
    result: Option<RunResult>,
) -> TaskRecord {
    TaskRecord {
        name: name.to_string(),
        state,
        run_started: started.map(|s| s.to_string()),
        run_result: result,
    }
}

fn result_of(secs: u64, err: Option<&str>, stdout: Option<&str>, stderr: Option<&str>) -> RunResult {
    RunResult {
        duration: RunDuration { secs, nanos: 0 },
        task_execution_error: err.map(|s| s.to_string()),
        stdout: stdout.map(|s| s.to_string()),
        stderr: stderr.map(|s| s.to_string()),
        return_code: 0,
    }
}

#[test]
fn test_get_task_result_line_str() {
    let dt = "2020-01-01 00:00:00 UTC";

    // successful after 20 secs
    let sample_task = record(
        "hello world",
        State::Success,
        Some(dt),
        Some(result_of(20, None, Some("hello world"), None)),
    );
    let expected = format!(
        "Task '{}' was started at {}\nTask '{}' stdout:\n{}\nTask '{}': succeeded after 20.0s\n",
        "hello world", dt, "hello world", "hello world", "hello world"
    );
    let (result_stdout, result_stderr) = get_task_result_line_str(&sample_task);
    assert_eq!(result_stdout, expected);
    assert_eq!(result_stderr, None);

    // failed after 20 secs (was started ok)
    let sample_task_stdout = record(
        "hello world",
        State::Failed("Something about not being in continue job".to_string()),
        Some(dt),
        Some(result_of(20, None, Some("hello world"), Some("There's errors"))),
    );
    let (failed_stdout, failed_stderr) = get_task_result_line_str(&sample_task_stdout);
    assert_eq!(
        failed_stderr.unwrap(),
        format!("Task '{}' stderr:\n{}\n", "hello world", "There's errors")
    );
    assert_eq!(
        failed_stdout,
        format!(
            "Task '{}' was started at {}\nTask '{}' stdout:\n{}\nTask '{}': failed after 20.0s. Reason: Something about not being in continue job\n",
            "hello world", dt, "hello world", "hello world", "hello world"
        )
    );

    // skipped task (previous failure/noop)
    let task_skipped = record("skip", State::Skipped("for some reason".to_string()), None, None);
    assert_eq!(
        format!("Task '{}': skipped!\n", "skip"),
        get_task_result_line_str(&task_skipped).0
    );
    assert_eq!(None, get_task_result_line_str(&task_skipped).1);

    // never launched at all
    let task_init_fail = record("init fail", State::Failed("bla".to_string()), None, None);
    assert_eq!(
        format!("Task '{}': {}!\n", "init fail", "Factotum could not start the task"),
        get_task_result_line_str(&task_init_fail).0
    );
    assert_eq!(None, get_task_result_line_str(&task_init_fail).1);

    // launch failure with captured output
    let task_failure = record(
        "fails",
        State::Failed("bla".to_string()),
        Some(dt),
        Some(result_of(
            20,
            Some("The task exited with something unexpected"),
            Some("hello world"),
            Some("There's errors"),
        )),
    );
    let expected_failed = format!(
        "Task '{}' was started at {}\nTask '{}' stdout:\n{}\nTask '{}': couldn't be started. Reason: The task exited with something unexpected\n",
        "fails", dt, "fails", "hello world", "fails"
    );
    let (stdout_failed, stderr_failed) = get_task_result_line_str(&task_failure);
    assert_eq!(expected_failed, stdout_failed);
    assert_eq!(
        format!("Task '{}' stderr:\n{}\n", "fails", "There's errors"),
        stderr_failed.unwrap()
    );
}

#[test]
fn test_get_task_results_str_summary() {
    let dt = "2020-01-01 00:00:00 UTC";

    let mut tasks: Vec<TaskRecord> = vec![];
    let (stdout, stderr) = get_task_results_str(&tasks);
    assert_eq!(stdout, "0/0 tasks run in 0.0s\n");
    assert_eq!(stderr, "");

    tasks.push(record(
        "hello world",
        State::Success,
        Some(dt),
        Some(result_of(20, None, Some("hello world"), Some("Mistake"))),
    ));
    let (one_task_stdout, one_task_stderr) = get_task_results_str(&tasks);
    let (first_task_stdout, first_task_stderr) = get_task_result_line_str(&tasks[0]);
    let expected_one_task = format!("{}{}", first_task_stdout, "1/1 tasks run in 20.0s\n");
    assert_eq!(one_task_stdout, expected_one_task);
    let first_task_stderr_str = first_task_stderr.unwrap();
    assert_eq!(one_task_stderr, first_task_stderr_str);

    tasks.push(record(
        "hello world 2",
        State::Success,
        Some(dt),
        Some(result_of(80, None, Some("hello world"), Some("Mistake"))),
    ));
    let (two_task_stdout, two_task_stderr) = get_task_results_str(&tasks);
    let (task_two_stdout, task_two_stderr) = get_task_result_line_str(&tasks[1]);
    let expected_two_task = format!(
        "{}{}{}",
        first_task_stdout, task_two_stdout, "2/2 tasks run in 1m, 40s\n"
    );
    assert_eq!(two_task_stdout, expected_two_task);
    assert_eq!(
        two_task_stderr,
        format!("{}{}", first_task_stderr_str, task_two_stderr.unwrap())
    );
}
