use hcbs_test_suite::codec::{serialize_result, ParseError};
use hcbs_test_suite::driver::{
    accept_result, all_tasks_known, batch_outlook, can_run_filter, check_instance_counts,
    check_root_bandwidth, next_action, replay_result, summarize, BatchOutlook,
    BatchSummary, RunAction, RunError,
};
use hcbs_test_suite::metrics::compute_result_insights;
use hcbs_test_suite::planner::longest_period;
use hcbs_test_suite::model::{
    NamedConfig, NamedTaskset, RTTask, RunnerArgsBase, TasksetRun, TasksetRunResult,
    TasksetRunResultInsights, TasksetRunResultInstance,
};
use hcbs_test_suite::time::{Bandwidth, Time, TimeDiff};

fn ms(v: u64) -> Time {
    Time::from_millis(v).unwrap()
}

fn task(wcet: u64, period: u64) -> RTTask {
    RTTask { wcet: ms(wcet), deadline: ms(period), period: ms(period) }
}

fn args(max_num_cpus: u64, jobs: u64) -> RunnerArgsBase {
    RunnerArgsBase {
        cgroup: "g0".to_string(),
        max_num_cpus,
        max_allocable_bw: Bandwidth::from_millionths(900_000),
        num_instances_per_job: jobs,
    }
}

fn sample_run() -> TasksetRun {
    TasksetRun {
        taskset: NamedTaskset { name: "t".to_string(), tasks: vec![task(10, 100), task(20, 200)] },
        config: NamedConfig { name: "c0".to_string(), cpus: 2, runtime: ms(50), period: ms(100) },
        results_file: "out/t/output-c0".to_string(),
    }
}

fn job(task: u64, instance: u64, finish_us: u64) -> TasksetRunResultInstance {
    TasksetRunResultInstance {
        task,
        instance,
        abs_activation_time: Time::from_micros(instance * 100_000),
        rel_start_time: Time::from_micros(0),
        rel_finishing_time: Time::from_micros(finish_us),
    }
}

fn ten_jobs_one_late() -> Vec<TasksetRunResultInstance> {
    let mut jobs: Vec<TasksetRunResultInstance> = (0..9).map(|k| job(0, k, 95_000)).collect();
    jobs.push(job(0, 9, 103_000));
    jobs
}

fn result_of(results: Vec<TasksetRunResultInstance>) -> TasksetRunResult {
    let r = sample_run();
    TasksetRunResult { taskset: r.taskset, config: r.config, results }
}

#[test]
fn insights_of_ten_jobs_with_one_overrun() {
    let insights = compute_result_insights(&result_of(ten_jobs_one_late()));
    assert_eq!(insights.num_overruns, 1);
    assert_eq!(insights.num_instances, 10);
    assert_eq!(insights.num_overruns as f64 / insights.num_instances as f64, 0.1);
    assert_eq!(insights.worst_overrun, TimeDiff { micros: 3_000 });
}

#[test]
fn insights_without_overrun_give_the_closest_finish() {
    let insights = compute_result_insights(&result_of(vec![job(0, 0, 95_000), job(1, 0, 199_000), job(0, 1, 100_000)]));
    assert_eq!(insights.num_overruns, 0);
    assert_eq!(insights.worst_overrun, TimeDiff { micros: 0 });
    let insights = compute_result_insights(&result_of(vec![job(0, 0, 95_000), job(1, 0, 190_000)]));
    assert_eq!(insights.worst_overrun, TimeDiff { micros: -5_000 });
    let insights = compute_result_insights(&result_of(vec![]));
    assert_eq!(
        insights,
        TasksetRunResultInsights { num_overruns: 0, num_instances: 0, worst_overrun: TimeDiff { micros: 0 } }
    );
}

#[test]
fn action_follows_admissibility_and_existing_results() {
    let r = sample_run();
    assert_eq!(next_action(&r, &args(4, 10), false), RunAction::Execute);
    assert_eq!(next_action(&r, &args(4, 10), true), RunAction::Replay);
    assert_eq!(next_action(&r, &args(1, 10), false), RunAction::Skip);
    assert_eq!(next_action(&r, &args(1, 10), true), RunAction::Skip);
    assert!(can_run_filter(&r, &args(4, 10), false));
    assert!(!can_run_filter(&r, &args(4, 10), true));
    assert!(!can_run_filter(&r, &args(1, 10), false));
}

#[test]
fn replay_reads_stored_results_and_gives_equal_insights() {
    let stored = result_of(ten_jobs_one_late());
    let text = serialize_result(&stored).unwrap();
    let r = sample_run();
    assert_eq!(next_action(&r, &args(4, 10), true), RunAction::Replay);
    let replayed = replay_result(r, &text).unwrap();
    assert_eq!(replayed, stored);
    assert_eq!(compute_result_insights(&replayed), compute_result_insights(&stored));
    assert_eq!(serialize_result(&replayed).unwrap(), text);
}

#[test]
fn replay_rejects_bad_text_and_unknown_tasks() {
    assert_eq!(replay_result(sample_run(), "nothing"), Err(RunError::Parse(ParseError::Malformed)));
    let text = "Results\nTask Job AbsActivation_us RelStart_us RelFinish_us DlOffset\n2 0 0 0 5 0\n";
    assert_eq!(replay_result(sample_run(), text), Err(RunError::UnknownTask));
}

#[test]
fn instance_counts_are_checked_for_every_task() {
    let tasks = vec![task(10, 100), task(20, 200)];
    let complete = vec![job(0, 0, 1), job(1, 0, 1), job(0, 1, 1), job(1, 1, 1)];
    assert!(check_instance_counts(&tasks, &complete, 2));
    assert!(!check_instance_counts(&tasks, &complete, 3));
    assert!(!check_instance_counts(&tasks, &complete[..3].to_vec(), 2));
    assert!(check_instance_counts(&vec![], &complete, 7));
    assert!(check_instance_counts(&tasks, &vec![], 0));
    assert!(all_tasks_known(&tasks, &complete));
    assert!(!all_tasks_known(&tasks, &vec![job(2, 0, 1)]));
}

#[test]
fn executed_result_is_accepted_only_when_complete() {
    let complete = vec![job(0, 0, 1), job(1, 0, 1), job(0, 1, 1), job(1, 1, 1)];
    let accepted = accept_result(sample_run(), complete.clone(), &args(4, 2)).unwrap();
    assert_eq!(accepted.results, complete);
    assert_eq!(accepted.taskset.name, "t");
    assert_eq!(accept_result(sample_run(), complete.clone(), &args(4, 3)), Err(RunError::IncorrectOutput));
    assert_eq!(accept_result(sample_run(), vec![job(5, 0, 1)], &args(4, 1)), Err(RunError::UnknownTask));
}

#[test]
fn outlook_counts_runs_and_adds_expected_time() {
    let mut small = sample_run();
    small.config.cpus = 8;
    let runs = vec![sample_run(), sample_run(), small, sample_run()];
    let outlook = batch_outlook(&runs, &vec![false, true, false], &args(4, 10));
    assert_eq!(
        outlook,
        BatchOutlook { total_runs: 4, todo_runs: 2, expected_runtime: Some(ms(4_000)) }
    );
    let overflow = batch_outlook(&runs, &vec![], &args(4, u64::MAX));
    assert_eq!(overflow.todo_runs, 3);
    assert_eq!(overflow.expected_runtime, None);
    assert_eq!(longest_period(&runs[0].taskset.tasks), 200_000);
    assert_eq!(longest_period(&vec![]), 0);
}

#[test]
fn second_pass_over_a_finished_batch_runs_nothing() {
    let runs = vec![sample_run(), sample_run()];
    let outlook = batch_outlook(&runs, &vec![true, true], &args(4, 10));
    assert_eq!(outlook.todo_runs, 0);
    assert_eq!(outlook.expected_runtime, Some(Time::zero()));
    for r in &runs {
        assert_ne!(next_action(r, &args(4, 10), true), RunAction::Execute);
    }
}

#[test]
fn summary_counts_failed_runs() {
    let late = compute_result_insights(&result_of(ten_jobs_one_late()));
    let fine = compute_result_insights(&result_of(vec![job(0, 0, 1)]));
    assert_eq!(summarize(&vec![late, fine, late], 5), BatchSummary { failures: 2, total: 5 });
    assert_eq!(summarize(&vec![], 0), BatchSummary { failures: 0, total: 0 });
}

#[test]
fn root_bandwidth_has_to_cover_what_is_asked() {
    let wanted = Bandwidth::from_millionths(900_000);
    assert!(check_root_bandwidth(950_000, 1_000_000, wanted));
    assert!(check_root_bandwidth(900_000, 1_000_000, wanted));
    assert!(!check_root_bandwidth(899_999, 1_000_000, wanted));
    assert!(check_root_bandwidth(0, 0, wanted));
}
