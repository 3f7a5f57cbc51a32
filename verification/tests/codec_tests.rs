use hcbs_test_suite::codec::{
    parse_config, parse_result, parse_taskset, serialize_config, serialize_result,
    serialize_taskset, ParseError, SerializeError,
};
use hcbs_test_suite::model::{
    NamedConfig, NamedTaskset, RTTask, TasksetRunResult, TasksetRunResultInstance,
};
use hcbs_test_suite::time::Time;

fn ms(v: u64) -> Time {
    Time::from_millis(v).unwrap()
}

fn task(wcet: u64, period: u64) -> RTTask {
    RTTask { wcet: ms(wcet), deadline: ms(period), period: ms(period) }
}

fn sample_taskset() -> NamedTaskset {
    NamedTaskset { name: "taskset_a".to_string(), tasks: vec![task(10, 100), task(25, 300)] }
}

fn sample_config() -> NamedConfig {
    NamedConfig { name: "c0".to_string(), cpus: 2, runtime: ms(50), period: ms(100) }
}

fn job(task: u64, instance: u64, abs: u64, start: u64, finish: u64) -> TasksetRunResultInstance {
    TasksetRunResultInstance {
        task,
        instance,
        abs_activation_time: Time::from_micros(abs),
        rel_start_time: Time::from_micros(start),
        rel_finishing_time: Time::from_micros(finish),
    }
}

#[test]
fn taskset_is_written_line_by_line() {
    let text = serialize_taskset(&sample_taskset()).unwrap();
    assert_eq!(text, "Taskset taskset_a\n10 100 100\n25 300 300\n");
}

#[test]
fn taskset_round_trip() {
    let taskset = sample_taskset();
    let text = serialize_taskset(&taskset).unwrap();
    assert_eq!(parse_taskset(&text), Ok(taskset));
}

#[test]
fn taskset_with_padding_is_read() {
    let parsed = parse_taskset("Taskset \t x  \n\n  1\t2   2  \n3 4 4").unwrap();
    assert_eq!(parsed.name, "x");
    assert_eq!(parsed.tasks, vec![task(1, 2), task(3, 4)]);
}

#[test]
fn taskset_stops_before_a_line_of_another_form() {
    let parsed = parse_taskset("Taskset x\n1 2 2\nnot a task\n5 6 6\n").unwrap();
    assert_eq!(parsed.tasks, vec![task(1, 2)]);
}

#[test]
fn taskset_rejects_deadline_that_is_not_the_period() {
    assert_eq!(parse_taskset("Taskset x\n1 2 3\n"), Err(ParseError::DeadlineNotPeriod));
    assert_eq!(parse_taskset("Taskset x\n1 2 2\n1 50 100\n"), Err(ParseError::DeadlineNotPeriod));
}

#[test]
fn taskset_rejects_malformed_text() {
    assert_eq!(parse_taskset(""), Err(ParseError::Malformed));
    assert_eq!(parse_taskset("Taskset"), Err(ParseError::Malformed));
    assert_eq!(parse_taskset("Taskset x"), Err(ParseError::Malformed));
    assert_eq!(parse_taskset("Taskset x\n"), Err(ParseError::Malformed));
    assert_eq!(parse_taskset("Tasks x\n1 2 2\n"), Err(ParseError::Malformed));
    assert_eq!(parse_taskset("Taskset x\n1 2\n"), Err(ParseError::Malformed));
    assert_eq!(parse_taskset("Taskset x\n99999999999999999999 2 2\n"), Err(ParseError::Malformed));
}

#[test]
fn taskset_rejects_durations_out_of_range() {
    assert_eq!(
        parse_taskset("Taskset x\n1 18446744073709552 18446744073709552\n"),
        Err(ParseError::OutOfRange)
    );
    assert!(parse_taskset("Taskset x\n1 18446744073709551 18446744073709551\n").is_ok());
}

#[test]
fn serializers_reject_whitespace_in_names() {
    let mut taskset = sample_taskset();
    taskset.name = "two words".to_string();
    assert_eq!(serialize_taskset(&taskset), Err(SerializeError::WhitespaceInName));
    taskset.name = "tab\there".to_string();
    assert_eq!(serialize_taskset(&taskset), Err(SerializeError::WhitespaceInName));
    taskset.name = "no\u{a0}break".to_string();
    assert_eq!(serialize_taskset(&taskset), Err(SerializeError::WhitespaceInName));
    let mut config = sample_config();
    config.name = "a b".to_string();
    assert_eq!(serialize_config(&config), Err(SerializeError::WhitespaceInName));
}

#[test]
fn durations_are_rounded_to_whole_milliseconds() {
    let taskset = NamedTaskset {
        name: "r".to_string(),
        tasks: vec![RTTask {
            wcet: Time::from_micros(1_500),
            deadline: Time::from_micros(2_500),
            period: Time::from_micros(2_501),
        }],
    };
    assert_eq!(serialize_taskset(&taskset).unwrap(), "Taskset r\n2 2 3\n");
}

#[test]
fn config_is_written_on_one_line() {
    assert_eq!(serialize_config(&sample_config()).unwrap(), "Config c0 2 50 100");
}

#[test]
fn config_round_trip() {
    let config = sample_config();
    let text = serialize_config(&config).unwrap();
    assert_eq!(parse_config(&text), Ok(config));
}

#[test]
fn config_rejects_malformed_text() {
    assert_eq!(parse_config("Config c0 2 50"), Err(ParseError::Malformed));
    assert_eq!(parse_config("Config  2 50 100"), Err(ParseError::Malformed));
    assert_eq!(parse_config("config c0 2 50 100"), Err(ParseError::Malformed));
    assert_eq!(parse_config("Config c0 2 50 18446744073709552"), Err(ParseError::OutOfRange));
}

#[test]
fn config_accepts_tabs_and_trailing_text() {
    let config = parse_config("Config\tname\t4  25\t 100 and more").unwrap();
    assert_eq!(config, NamedConfig { name: "name".to_string(), cpus: 4, runtime: ms(25), period: ms(100) });
}

#[test]
fn result_is_written_with_the_distance_from_the_deadline() {
    let result = TasksetRunResult {
        taskset: sample_taskset(),
        config: sample_config(),
        results: vec![job(0, 0, 1_000, 10, 95_000), job(1, 0, 1_000, 20, 303_000)],
    };
    let text = serialize_result(&result).unwrap();
    assert_eq!(
        text,
        "Results\nTask Job AbsActivation_us RelStart_us RelFinish_us DlOffset\n\
         0 0 1000 10 95000 -5000\n1 0 1000 20 303000 3000\n"
    );
}

#[test]
fn result_round_trip() {
    let result = TasksetRunResult {
        taskset: sample_taskset(),
        config: sample_config(),
        results: vec![job(0, 0, 1_000, 10, 95_000), job(1, 0, 1_000, 20, 303_000), job(0, 1, 101_000, 0, 100_000)],
    };
    let text = serialize_result(&result).unwrap();
    assert_eq!(parse_result(&text), Ok(result.results));
}

#[test]
fn result_rejects_unknown_task() {
    let result = TasksetRunResult {
        taskset: sample_taskset(),
        config: sample_config(),
        results: vec![job(2, 0, 0, 0, 0)],
    };
    assert_eq!(serialize_result(&result), Err(SerializeError::UnknownTask));
}

#[test]
fn result_accepts_signed_decimals_in_the_last_column() {
    let head = "Results \nTask  Job AbsActivation_us RelStart_us RelFinish_us DlOffset \n";
    for last in ["5", "-5", "5.25", "-0.5", ".5", "-.75"] {
        let text = format!("{head}1 2 3 4 5 {last}\n");
        assert_eq!(parse_result(&text), Ok(vec![job(1, 2, 3, 4, 5)]));
    }
    for last in ["", "-", ".", "x"] {
        let text = format!("{head}1 2 3 4 5 {last}\n");
        assert_eq!(parse_result(&text), Err(ParseError::Malformed));
    }
}

#[test]
fn result_rejects_malformed_text() {
    assert_eq!(parse_result("Results\n"), Err(ParseError::Malformed));
    assert_eq!(
        parse_result("Results\nTask Job AbsActivation_us RelStart_us RelFinish_us DlOffset\n"),
        Err(ParseError::Malformed)
    );
    assert_eq!(
        parse_result("Results\nTask Job AbsActivation_us RelStart_us RelFinish_us\n1 2 3 4 5 6\n"),
        Err(ParseError::Malformed)
    );
}
