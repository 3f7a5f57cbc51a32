use hcbs_test_suite::codec::ParseError;
use hcbs_test_suite::model::{RTTask, RunnerArgsBase, TasksetRunResultInstance};
use hcbs_test_suite::workload::periodic_thread::{
    ordered_by_period, parse_cycles, parse_taskset_results, run_periodic_thread_args,
    CalibrationError, PeriodicThreadData, WorkloadError,
};
use hcbs_test_suite::workload::rt_app::{
    generate_taskset_config, parse_load, parse_task_result, taskset_run_seconds, ConfigError,
};
use hcbs_test_suite::time::{Bandwidth, Time};

fn ms(v: u64) -> Time {
    Time::from_millis(v).unwrap()
}

fn task(wcet: u64, period: u64) -> RTTask {
    RTTask { wcet: ms(wcet), deadline: ms(period), period: ms(period) }
}

fn job(task: u64, instance: u64, abs: u64, start: u64, finish: u64) -> TasksetRunResultInstance {
    TasksetRunResultInstance {
        task,
        instance,
        abs_activation_time: Time::from_micros(abs),
        rel_start_time: Time::from_micros(start),
        rel_finishing_time: Time::from_micros(finish),
    }
}

fn data(start_priority: u64, cpu_speed: Option<u64>, tasks: Vec<RTTask>) -> PeriodicThreadData {
    PeriodicThreadData {
        start_priority,
        cpu_speed,
        tasks,
        num_instances_per_job: 200,
        extra_args: vec![],
        out_file: "/tmp/out.txt".to_string(),
    }
}

fn args(jobs: u64) -> RunnerArgsBase {
    RunnerArgsBase {
        cgroup: "g0".to_string(),
        max_num_cpus: 4,
        max_allocable_bw: Bandwidth::from_millionths(900_000),
        num_instances_per_job: jobs,
    }
}

#[test]
fn periodic_thread_gets_one_triple_for_each_task() {
    let got = run_periodic_thread_args(&data(98, Some(12_345), vec![task(10, 100), task(20, 300)])).unwrap();
    assert_eq!(
        got.join(" "),
        "-C 10000 -p 100000 -P 98 -C 20000 -p 300000 -P 97 -R 12345 -N 200 -n 2"
    );
}

#[test]
fn periodic_thread_calibration_run_has_no_speed() {
    let mut d = data(99, None, vec![task(10, 100)]);
    d.num_instances_per_job = 1;
    d.extra_args = vec!["-x".to_string(), "1".to_string()];
    assert_eq!(run_periodic_thread_args(&d).unwrap().join(" "), "-C 10000 -p 100000 -P 99 -x 1 -N 1 -n 1");
}

#[test]
fn periodic_thread_leaves_out_tasks_beyond_the_last_priority() {
    let got = run_periodic_thread_args(&data(1, None, vec![task(1, 10), task(2, 20)])).unwrap();
    assert_eq!(got.join(" "), "-C 1000 -p 10000 -P 1 -N 200 -n 1");
    let got = run_periodic_thread_args(&data(0, None, vec![task(1, 10)])).unwrap();
    assert_eq!(got.join(" "), "-N 200 -n 0");
}

#[test]
fn periodic_thread_refuses_bad_task_lists() {
    assert_eq!(run_periodic_thread_args(&data(98, None, vec![])), Err(WorkloadError::NoTasks));
    assert_eq!(
        run_periodic_thread_args(&data(98, None, vec![task(1, 20), task(1, 10)])),
        Err(WorkloadError::NotOrderedByPeriod)
    );
    assert!(ordered_by_period(&vec![task(1, 10), task(1, 10), task(1, 11)]));
    assert!(!ordered_by_period(&vec![task(1, 10), task(1, 12), task(1, 11)]));
    assert!(ordered_by_period(&vec![]));
}

#[test]
fn periodic_thread_report_is_read_line_by_line() {
    let text = "#Cycles: 5\n# a remark\n\n0 0 1000 10 95000 -0.005000\n  1 0 1000 20 303000 3000 trailing\n#end\n";
    assert_eq!(
        parse_taskset_results(text),
        Ok(vec![job(0, 0, 1_000, 10, 95_000), job(1, 0, 1_000, 20, 303_000)])
    );
    assert_eq!(parse_taskset_results(""), Ok(vec![]));
    assert_eq!(parse_taskset_results("# only remarks\n\n"), Ok(vec![]));
    assert_eq!(parse_taskset_results("0 0 1000 10 95000\n"), Err(ParseError::Malformed));
    assert_eq!(parse_taskset_results("0 0 1 1 1 0\nbad\n"), Err(ParseError::Malformed));
}

#[test]
fn cycles_are_read_from_the_first_matching_line() {
    assert_eq!(parse_cycles("#Cycles: 123456\n"), Ok(123_456));
    assert_eq!(parse_cycles("0 0 1 1 1 0\n#Cycles:\t42 more\n#Cycles: 7\n"), Ok(42));
    assert_eq!(parse_cycles("#Cycles: 18446744073709551615"), Ok(u64::MAX));
    assert_eq!(parse_cycles(""), Err(CalibrationError::NotFound));
    assert_eq!(parse_cycles(" #Cycles: 5\n"), Err(CalibrationError::NotFound));
    assert_eq!(parse_cycles("#Cycles:5\n"), Err(CalibrationError::Malformed));
    assert_eq!(parse_cycles("#Cycles: x\n#Cycles: 5\n"), Err(CalibrationError::Malformed));
    assert_eq!(parse_cycles("#Cycles: 5x\n"), Err(CalibrationError::Malformed));
    assert_eq!(parse_cycles("#Cycles: 18446744073709551616\n"), Err(CalibrationError::Malformed));
}

#[test]
fn rt_app_runs_for_one_job_more_rounded_up_to_seconds() {
    assert_eq!(taskset_run_seconds(&vec![task(10, 100), task(20, 300)], 200), Some(61));
    assert_eq!(taskset_run_seconds(&vec![task(10, 100)], 9), Some(1));
    assert_eq!(taskset_run_seconds(&vec![task(10, 100)], 10), Some(2));
    assert_eq!(taskset_run_seconds(&vec![], 10), None);
    assert_eq!(taskset_run_seconds(&vec![task(1, 1)], u64::MAX), Some(18_446_744_073_709_552));
    assert_eq!(
        taskset_run_seconds(&vec![RTTask { wcet: ms(1), deadline: ms(1), period: Time::from_micros(u64::MAX) }], u64::MAX),
        None
    );
}

#[test]
fn rt_app_config_names_every_task() {
    let text = generate_taskset_config(&vec![task(10, 100), task(20, 300)], &args(200), Some(77), "/tmp/rt-app").unwrap();
    assert!(text.starts_with("{\n\n    \"global\" : {\n\t\t\"duration\" : 61,\n\t\t\"calibration\" : 77,\n"));
    assert!(text.contains("\"default_policy\" : \"SCHED_OTHER\""));
    assert!(text.contains("\"logdir\" : \"/tmp/rt-app\""));
    assert!(text.contains(
        "\n\t\t\"task00\": {\n            \"policy\": \"SCHED_FIFO\",\n            \"priority\": 99,\n            \"run\": 10000,\n\t\t\t\"timer\": {\n\t\t\t\t\"ref\": \"unique\",\n\t\t\t\t\"period\": 100000,\n\t\t\t\t\"mode\": \"absolute\"\n\t\t\t}\n\t\t},\n\n\t\t\"task01\": {"
    ));
    assert!(text.contains("\"priority\": 98,\n            \"run\": 20000,"));
    assert!(text.ends_with("\t\t\t}\n\t\t}\n\t}\n}"));
    assert_eq!(text.matches("\"policy\": \"SCHED_FIFO\"").count(), 2);
    let uncalibrated = generate_taskset_config(&vec![task(10, 100)], &args(1), None, "l").unwrap();
    assert!(uncalibrated.contains("\"calibration\" : \"CPU0\","));
}

#[test]
fn rt_app_config_refuses_what_it_cannot_state() {
    assert_eq!(generate_taskset_config(&vec![], &args(1), None, "l"), Err(ConfigError::NoTasks));
    assert_eq!(
        generate_taskset_config(&vec![task(1, 10); 101], &args(1), None, "l"),
        Err(ConfigError::TooManyTasks)
    );
    assert!(generate_taskset_config(&vec![task(1, 10); 100], &args(1), None, "l").unwrap().contains("\"priority\": 0,"));
    let long = vec![RTTask { wcet: ms(1), deadline: ms(1), period: Time::from_micros(u64::MAX) }];
    assert_eq!(generate_taskset_config(&long, &args(u64::MAX), None, "l"), Err(ConfigError::TooLong));
}

#[test]
fn rt_app_log_gives_one_job_for_each_row() {
    let text = "# Policy : SCHED_FIFO priority : 99\n#idx\tperf\trun\tperiod\tstart\tend\trel_st\tslack\tc_duration\tc_period\twu_lat\n\
                0\t100\t9000\t100000\t5000000\t5009000\t0\t90000\t10000\t100000\t12\n\
                0 100 9500 100000 5100000 5109500 100000 -3000 10000 100000 15\n";
    assert_eq!(
        parse_task_result(text),
        Ok(vec![job(0, 0, 5_000_000, 1_000, 10_000), job(0, 1, 5_100_000, 93_500, 103_000)])
    );
    assert_eq!(parse_task_result("#idx\n"), Ok(vec![]));
    assert_eq!(parse_task_result("0 1 2 3 4 5 6 7 8 9\n"), Err(ParseError::Malformed));
    assert_eq!(parse_task_result("0 1 2 3 4 5 6 11 8 10 0\n"), Err(ParseError::OutOfRange));
    assert_eq!(parse_task_result("0 1 9 3 4 5 6 7 8 10 0\n"), Err(ParseError::OutOfRange));
    assert_eq!(
        parse_task_result("0 1 2 3 4 5 6 -1 8 18446744073709551615 0\n"),
        Err(ParseError::OutOfRange)
    );
}

#[test]
fn rt_app_logs_of_all_tasks_are_joined_in_order() {
    let row = |idx: u64, start: u64| format!("{idx} 1 10 100 {start} 0 0 40 10 100 0\n");
    let logs = vec![Some(row(0, 1) + &row(0, 2)), Some(row(1, 3))];
    assert_eq!(
        hcbs_test_suite::workload::rt_app::parse_taskset_results(&logs),
        Ok(vec![job(0, 0, 1, 50, 60), job(0, 1, 2, 50, 60), job(1, 0, 3, 50, 60)])
    );
    let missing = vec![Some(row(0, 1)), None];
    assert_eq!(
        hcbs_test_suite::workload::rt_app::parse_taskset_results(&missing),
        Err(ParseError::Malformed)
    );
    assert_eq!(hcbs_test_suite::workload::rt_app::parse_taskset_results(&vec![]), Ok(vec![]));
}

#[test]
fn rt_app_load_is_the_fifth_word_without_its_unit() {
    let text = "[rt-app] <notice> calibrating\n[rt-app] <notice> pLoad = 375ns : calib_cpu 0\n";
    assert_eq!(parse_load(text), Ok(375));
    assert_eq!(parse_load("a b pLoad = 99ns\nx y pLoad = 1ns\n"), Ok(99));
    assert_eq!(parse_load("nothing here\n"), Err(CalibrationError::NotFound));
    assert_eq!(parse_load("a pLoad = 99ns\n"), Err(CalibrationError::Malformed));
    assert_eq!(parse_load("a b pLoad = 99\n"), Err(CalibrationError::Malformed));
    assert_eq!(parse_load("a b pLoad = 99nsx\n"), Err(CalibrationError::Malformed));
    assert_eq!(parse_load("a b pLoad = ns\n"), Err(CalibrationError::Malformed));
}
