use hcbs_test_suite::model::{
    NamedConfig, NamedTaskset, RTTask, RunnerArgsBase, TasksetRun, TasksetRunInsights,
};
use hcbs_test_suite::order::name_le;
use hcbs_test_suite::planner::{
    can_run_taskset, classify_directory, compute_insights, copy_taskset, directory_taskset_runs,
    get_taskset_run, results_file_path, sort_runs, DirectoryPlan, PlanError,
};
use hcbs_test_suite::codec::ParseError;
use hcbs_test_suite::time::{Bandwidth, Time};

fn ms(v: u64) -> Time {
    Time::from_millis(v).unwrap()
}

fn task(wcet: u64, period: u64) -> RTTask {
    RTTask { wcet: ms(wcet), deadline: ms(period), period: ms(period) }
}

fn args(max_num_cpus: u64, millionths: u64, jobs: u64) -> RunnerArgsBase {
    RunnerArgsBase {
        cgroup: "g0".to_string(),
        max_num_cpus,
        max_allocable_bw: Bandwidth::from_millionths(millionths),
        num_instances_per_job: jobs,
    }
}

fn run(tasks: Vec<RTTask>, cpus: u64, runtime: u64, period: u64) -> TasksetRun {
    TasksetRun {
        taskset: NamedTaskset { name: "t".to_string(), tasks },
        config: NamedConfig { name: "c".to_string(), cpus, runtime: ms(runtime), period: ms(period) },
        results_file: "out/t/output-c".to_string(),
    }
}

fn named_run(taskset: &str, config: &str) -> TasksetRun {
    let mut r = run(vec![task(1, 10)], 1, 1, 2);
    r.taskset.name = taskset.to_string();
    r.config.name = config.to_string();
    r
}

#[test]
fn admissibility_of_a_half_bandwidth_reservation() {
    let r = run(vec![task(10, 100), task(20, 200)], 2, 50, 100);
    assert!(can_run_taskset(&r, &args(4, 900_000, 200)));
    assert!(!can_run_taskset(&r, &args(1, 900_000, 200)));
}

#[test]
fn admissibility_checks_bandwidth_and_gap() {
    let r = run(vec![task(10, 100)], 1, 91, 100);
    assert!(!can_run_taskset(&r, &args(4, 900_000, 200)));
    let r = run(vec![task(10, 100)], 1, 90, 100);
    assert!(can_run_taskset(&r, &args(4, 900_000, 200)));
    let r = run(vec![task(10, 49), task(10, 100)], 1, 50, 100);
    assert!(!can_run_taskset(&r, &args(4, 900_000, 200)));
    let r = run(vec![task(10, 50), task(10, 100)], 1, 50, 100);
    assert!(can_run_taskset(&r, &args(4, 900_000, 200)));
    let r = run(vec![task(1, 5)], 2, 150, 100);
    assert!(can_run_taskset(&r, &args(4, 2_000_000, 200)));
    let r = run(vec![], 1, 50, 100);
    assert!(can_run_taskset(&r, &args(4, 900_000, 200)));
}

#[test]
fn admissibility_survives_half_the_budget_where_the_gap_allows() {
    let a = args(4, 900_000, 200);
    let r = run(vec![task(10, 100)], 2, 50, 100);
    assert!(can_run_taskset(&r, &a));
    assert!(can_run_taskset(&run(vec![task(10, 100)], 2, 25, 100), &a));
    assert!(can_run_taskset(&run(vec![task(10, 150)], 2, 50, 200), &a));
    let tight = run(vec![task(10, 50)], 2, 50, 100);
    assert!(can_run_taskset(&tight, &a));
    assert!(!can_run_taskset(&run(vec![task(10, 50)], 2, 25, 100), &a));
    assert!(!can_run_taskset(&run(vec![task(10, 50)], 2, 50, 200), &a));
}

#[test]
fn expected_runtime_is_longest_period_times_jobs() {
    let r = run(vec![task(10, 100), task(20, 300), task(1, 200)], 1, 50, 100);
    assert_eq!(
        compute_insights(&r, &args(4, 900_000, 200)),
        Some(TasksetRunInsights { expected_runtime: ms(60_000) })
    );
    assert_eq!(compute_insights(&run(vec![], 1, 50, 100), &args(4, 900_000, 200)), None);
    assert_eq!(compute_insights(&r, &args(4, 900_000, u64::MAX)), None);
}

#[test]
fn results_file_lies_below_the_output_directory() {
    assert_eq!(results_file_path("out", "taskset_a", "c0"), "out/taskset_a/output-c0");
}

#[test]
fn names_are_ordered_like_strings() {
    for (a, b) in [("", ""), ("", "a"), ("a", "b"), ("ab", "abc"), ("b", "abc"), ("é", "z"), ("a10", "a9")] {
        assert_eq!(name_le(a, b), a <= b);
        assert_eq!(name_le(b, a), b <= a);
    }
}

#[test]
fn runs_are_sorted_by_taskset_then_config() {
    let sorted = sort_runs(vec![
        named_run("t2", "c1"),
        named_run("t1", "c2"),
        named_run("t10", "c0"),
        named_run("t1", "c1"),
        named_run("t2", "c0"),
    ]);
    let keys: Vec<(String, String)> =
        sorted.iter().map(|r| (r.taskset.name.clone(), r.config.name.clone())).collect();
    let mut expected = keys.clone();
    expected.sort();
    assert_eq!(keys, expected);
    assert_eq!(keys.len(), 5);
    assert_eq!(keys[0], ("t1".to_string(), "c1".to_string()));
    assert_eq!(keys[2], ("t10".to_string(), "c0".to_string()));
    assert!(sort_runs(vec![]).is_empty());
}

#[test]
fn directories_are_classified_by_their_files() {
    let names = |v: &[&str]| v.iter().map(|s| s.to_string()).collect::<Vec<String>>();
    assert_eq!(classify_directory(&names(&[])), Err(PlanError::MissingTaskset));
    assert_eq!(classify_directory(&names(&["config_000.txt"])), Err(PlanError::MissingTaskset));
    assert_eq!(classify_directory(&names(&["taskset.txt"])), Ok(DirectoryPlan::Skip));
    assert_eq!(
        classify_directory(&names(&["b.txt", "taskset.txt", "a.txt"])),
        Ok(DirectoryPlan::Read { configs: names(&["b.txt", "a.txt"]) })
    );
}

#[test]
fn directory_gives_one_run_for_each_config() {
    let configs = vec!["Config c1 1 10 20".to_string(), "Config c0 2 30 40".to_string()];
    let runs = directory_taskset_runs("Taskset ts\n5 50 50\n", &configs, "out").unwrap();
    assert_eq!(runs.len(), 2);
    assert_eq!(runs[0].taskset.name, "ts");
    assert_eq!(runs[0].taskset.tasks, vec![task(5, 50)]);
    assert_eq!(runs[0].config, NamedConfig { name: "c1".to_string(), cpus: 1, runtime: ms(10), period: ms(20) });
    assert_eq!(runs[0].results_file, "out/ts/output-c1");
    assert_eq!(runs[1].config.name, "c0");
    assert_eq!(runs[1].results_file, "out/ts/output-c0");
    assert_eq!(runs[1].taskset, runs[0].taskset);
}

#[test]
fn directory_fails_on_the_first_bad_text() {
    let good = vec!["Config c1 1 10 20".to_string()];
    assert_eq!(
        directory_taskset_runs("Taskset ts\n5 40 50\n", &good, "out"),
        Err(PlanError::Taskset(ParseError::DeadlineNotPeriod))
    );
    let bad = vec!["Config c1 1 10 20".to_string(), "nothing".to_string(), "Config c 1 2 99999999999999999999".to_string()];
    assert_eq!(
        directory_taskset_runs("Taskset ts\n5 50 50\n", &bad, "out"),
        Err(PlanError::Config(ParseError::Malformed))
    );
}

#[test]
fn single_run_is_read_from_two_texts() {
    let r = get_taskset_run("Taskset ts\n5 50 50\n", "Config c 1 10 20", "somewhere/out.txt").unwrap();
    assert_eq!(r.results_file, "somewhere/out.txt");
    assert_eq!(r.config.name, "c");
    assert_eq!(
        get_taskset_run("nothing", "Config c 1 10 20", "o"),
        Err(PlanError::Taskset(ParseError::Malformed))
    );
    assert_eq!(
        get_taskset_run("Taskset ts\n5 50 50\n", "nothing", "o"),
        Err(PlanError::Config(ParseError::Malformed))
    );
}

#[test]
fn copy_of_a_taskset_is_equal() {
    let t = NamedTaskset { name: "n".to_string(), tasks: vec![task(1, 2), task(3, 4)] };
    assert_eq!(copy_taskset(&t), t);
}
