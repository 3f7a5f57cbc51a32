use hcbs_test_suite::codec::{parse_taskset, serialize_config, serialize_taskset};
use hcbs_test_suite::generator::{
    all_at_most_one, build_taskset, generate_config, make_task, AnalysisOptions, MprModel,
    SeedStream, Supply, TasksetGenerator, TasksetGeneratorOptions, UtilizationRequest,
};
use hcbs_test_suite::grid::{grid_value, grid_values, last_grid_index};
use hcbs_test_suite::model::{NamedTaskset, RTTask};
use hcbs_test_suite::naming::{decimal_len, make_config_name, make_taskset_name};
use hcbs_test_suite::sorting::sort_by_period;
use hcbs_test_suite::time::{Bandwidth, Time};

fn ms(v: u64) -> Time {
    Time::from_millis(v).unwrap()
}

fn smoke_options() -> TasksetGeneratorOptions {
    TasksetGeneratorOptions {
        tasksets_per_utilization: 1,
        num_tasks: (2, 2),
        task_period_ms: (ms(100), ms(100), ms(0)),
        taskset_utilization: (500, 500, 100),
    }
}

fn run_generator(options: TasksetGeneratorOptions, seed: u64, utils: &dyn Fn(&UtilizationRequest) -> Option<Vec<u64>>) -> Vec<NamedTaskset> {
    let mut generator = TasksetGenerator::new(options, seed).unwrap();
    let mut out = Vec::new();
    let mut rounds = 0;
    while let Some(request) = generator.next_request() {
        rounds += 1;
        assert!(rounds < 10_000);
        match generator.supply(utils(&request)) {
            Supply::Generated(taskset) => out.push(taskset),
            Supply::Retry => {}
            Supply::Rejected => panic!("rejected"),
        }
    }
    out
}

fn split_evenly(request: &UtilizationRequest) -> Option<Vec<u64>> {
    let n = request.num_tasks;
    let total = request.utilization / 10;
    let mut utils = vec![(total / n).min(100); n as usize];
    utils[0] = (utils[0] + total % n).min(100);
    Some(utils)
}

#[test]
fn smoke_options_give_exactly_one_taskset() {
    let tasksets = run_generator(smoke_options(), 42, &|_| Some(vec![30, 20]));
    assert_eq!(tasksets.len(), 1);
    let taskset = &tasksets[0];
    assert_eq!(taskset.name, "taskset_U0.5_N02_000");
    assert_eq!(taskset.tasks.len(), 2);
    for task in &taskset.tasks {
        assert_eq!(task.period, ms(100));
        assert_eq!(task.deadline, ms(100));
    }
    let wcet: u64 = taskset.tasks.iter().map(|t| t.wcet.as_micros()).sum();
    assert_eq!(wcet, 50_000);
}

#[test]
fn smoke_taskset_round_trips() {
    let tasksets = run_generator(smoke_options(), 42, &|_| Some(vec![30, 20]));
    let text = serialize_taskset(&tasksets[0]).unwrap();
    assert_eq!(text, "Taskset taskset_U0.5_N02_000\n30 100 100\n20 100 100\n");
    assert_eq!(parse_taskset(&text).unwrap(), tasksets[0]);
}

#[test]
fn generator_is_repeatable() {
    let options = TasksetGeneratorOptions {
        tasksets_per_utilization: 3,
        num_tasks: (2, 9),
        task_period_ms: (ms(100), ms(500), ms(200)),
        taskset_utilization: (500, 2_500, 200),
    };
    let first = run_generator(options, 42, &split_evenly);
    let second = run_generator(options, 42, &split_evenly);
    assert_eq!(first, second);
    assert_eq!(first.len(), 33);
    let other = run_generator(options, 43, &split_evenly);
    assert_ne!(first, other);
}

#[test]
fn generated_tasksets_are_named_counted_and_sorted() {
    let options = TasksetGeneratorOptions {
        tasksets_per_utilization: 2,
        num_tasks: (3, 6),
        task_period_ms: (ms(100), ms(500), ms(200)),
        taskset_utilization: (500, 900, 200),
    };
    let tasksets = run_generator(options, 7, &split_evenly);
    assert_eq!(tasksets.len(), 6);
    for (k, taskset) in tasksets.iter().enumerate() {
        let tenths = 5 + 2 * (k / 2);
        let n = taskset.tasks.len();
        assert!((3..=6).contains(&n));
        assert_eq!(taskset.name, format!("taskset_U0.{}_N{:02}_{:03}", tenths, n, k));
        for pair in taskset.tasks.windows(2) {
            assert!(pair[0].period <= pair[1].period);
        }
        for task in &taskset.tasks {
            assert!([100, 300, 500].contains(&(task.period.as_micros() / 1000)));
            assert_eq!(task.deadline, task.period);
            assert!(task.wcet <= task.period);
            assert!(task.wcet.is_whole_millis());
        }
    }
}

#[test]
fn generator_takes_seeds_in_order() {
    let mut generator = TasksetGenerator::new(smoke_options(), 42).unwrap();
    let request = generator.next_request().unwrap();
    assert_eq!(request, UtilizationRequest { num_tasks: 2, utilization: 500, seed: 43 });
    assert_eq!(generator.supply(None), Supply::Retry);
    let request = generator.next_request().unwrap();
    assert_eq!(request.seed, 44);
    assert_eq!(generator.supply(Some(vec![10])), Supply::Rejected);
    assert_eq!(generator.supply(Some(vec![10, 101])), Supply::Rejected);
    let request = generator.next_request().unwrap();
    assert_eq!(request.seed, 45);
    assert!(matches!(generator.supply(Some(vec![10, 100])), Supply::Generated(_)));
    assert_eq!(generator.supply(Some(vec![10, 100])), Supply::Retry);
    assert_eq!(generator.next_request(), None);
    assert_eq!(generator.seeds.next, 46);
    assert_eq!(generator.produced, 1);
}

#[test]
fn generator_refuses_bounds_in_the_wrong_order() {
    let mut options = smoke_options();
    options.num_tasks = (3, 2);
    assert!(TasksetGenerator::new(options, 1).is_none());
    let mut options = smoke_options();
    options.task_period_ms = (ms(200), ms(100), ms(10));
    assert!(TasksetGenerator::new(options, 1).is_none());
    let mut options = smoke_options();
    options.taskset_utilization = (900, 500, 100);
    assert_eq!(TasksetGenerator::new(options, 1).unwrap().next_request(), None);
    let mut options = smoke_options();
    options.tasksets_per_utilization = 0;
    assert_eq!(TasksetGenerator::new(options, 1).unwrap().next_request(), None);
}

#[test]
fn seeds_follow_each_other_and_wrap() {
    let mut seeds = SeedStream::new(u64::MAX - 1);
    assert_eq!(seeds.take(), u64::MAX - 1);
    assert_eq!(seeds.take(), u64::MAX);
    assert_eq!(seeds.take(), 0);
    assert_eq!(seeds.take(), 1);
}

#[test]
fn tasks_take_their_share_of_the_period_in_whole_milliseconds() {
    assert_eq!(make_task(29, ms(100)), RTTask { wcet: ms(29), deadline: ms(100), period: ms(100) });
    assert_eq!(make_task(33, ms(10)).wcet, ms(3));
    assert_eq!(make_task(100, ms(7)).wcet, ms(7));
    assert_eq!(make_task(0, ms(7)).wcet, ms(0));
    assert_eq!(make_task(50, Time::from_micros(u64::MAX)).wcet, Time::from_micros(9_223_372_036_854_775_000));
    assert!(all_at_most_one(&vec![0, 100, 50]));
    assert!(!all_at_most_one(&vec![0, 101]));
}

#[test]
fn built_taskset_is_sorted_and_keeps_equal_periods_in_order() {
    let taskset = build_taskset(1_250, 7, &vec![10, 20, 30, 40], &vec![ms(300), ms(100), ms(300), ms(100)]);
    assert_eq!(taskset.name, "taskset_U1.2_N04_007");
    let seen: Vec<(u64, u64)> =
        taskset.tasks.iter().map(|t| (t.wcet.as_micros() / 1000, t.period.as_micros() / 1000)).collect();
    assert_eq!(seen, vec![(20, 100), (40, 100), (30, 300), (90, 300)]);
    let sorted = sort_by_period(&vec![]);
    assert!(sorted.is_empty());
}

#[test]
fn names_are_padded_and_rounded() {
    assert_eq!(make_taskset_name(500, 2, 0), "taskset_U0.5_N02_000");
    assert_eq!(make_taskset_name(2_500, 16, 123), "taskset_U2.5_N16_123");
    assert_eq!(make_taskset_name(12_340, 100, 1_000), "taskset_U12.3_N100_1000");
    assert_eq!(make_taskset_name(950, 1, 1), "taskset_U1.0_N01_001");
    assert_eq!(make_taskset_name(250, 1, 1), "taskset_U0.2_N01_001");
    assert_eq!(make_taskset_name(350, 1, 1), "taskset_U0.4_N01_001");
    assert_eq!(make_config_name("config", 5), "config_005");
    assert_eq!(decimal_len(0), 1);
    assert_eq!(decimal_len(9), 1);
    assert_eq!(decimal_len(10), 2);
    assert_eq!(decimal_len(u64::MAX), 20);
}

#[test]
fn grids_hold_every_step_up_to_the_bound() {
    assert_eq!(grid_values(100, 500, 200), vec![100, 300, 500]);
    assert_eq!(grid_values(100, 499, 200), vec![100, 300]);
    assert_eq!(grid_values(20, 100, 40), vec![20, 60, 100]);
    assert_eq!(grid_values(100, 100, 0), vec![100]);
    assert_eq!(grid_values(100, 500, 0), vec![100]);
    assert_eq!(grid_values(5, 4, 1), Vec::<u64>::new());
    assert_eq!(grid_values(u64::MAX - 1, u64::MAX, 1), vec![u64::MAX - 1, u64::MAX]);
    assert_eq!(last_grid_index(100, 500, 200), 2);
    assert_eq!(last_grid_index(0, u64::MAX, 1), u64::MAX);
    assert_eq!(grid_value(100, 500, 200, 1), 300);
}

fn analysis(cap: u64, max_cores: u64) -> AnalysisOptions {
    AnalysisOptions {
        cgroup_period: (ms(20), ms(100), ms(40)),
        max_per_core_bandwidth: Bandwidth::from_millionths(cap),
        max_cores,
        precision: ms(1),
    }
}

fn model(concurrency: u64, resource: u64, period: u64) -> MprModel {
    MprModel { resource: ms(resource), period: ms(period), concurrency }
}

#[test]
fn reservation_at_the_per_core_bound_is_kept() {
    let configs = generate_config("config", &vec![model(2, 28, 20)], &analysis(700_000, 2));
    assert_eq!(configs.len(), 1);
    assert_eq!(configs[0].name, "config_000");
    assert_eq!(configs[0].cpus, 2);
    assert_eq!(configs[0].runtime, ms(28));
    assert_eq!(configs[0].period, ms(20));
    assert_eq!(serialize_config(&configs[0]).unwrap(), "Config config_000 2 28 20");
}

#[test]
fn infeasible_reservations_are_left_out() {
    let models = vec![
        model(2, 29, 20),
        model(3, 28, 20),
        model(2, 28, 20),
        model(1, 0, 20),
        model(1, 21, 20),
        model(0, 1, 20),
        model(2, 40, 60),
        MprModel { resource: Time::from_micros(u64::MAX), period: Time::from_micros(u64::MAX), concurrency: 2 },
    ];
    let configs = generate_config("c", &models, &analysis(700_000, 2));
    let kept: Vec<(String, u64, Time)> = configs.iter().map(|c| (c.name.clone(), c.cpus, c.runtime)).collect();
    assert_eq!(
        kept,
        vec![
            ("c_000".to_string(), 2, ms(28)),
            ("c_001".to_string(), 2, ms(40)),
            ("c_002".to_string(), 2, Time::from_micros(u64::MAX)),
        ]
    );
    for c in &configs {
        let capacity = c.cpus as u128 * c.period.as_micros() as u128;
        assert!(c.runtime.as_micros() > 0);
        assert!(c.runtime.as_micros() as u128 <= capacity);
        assert!(c.runtime.as_micros() as u128 * 1_000_000 <= 700_000 * capacity);
    }
    assert!(generate_config("c", &models, &analysis(1_000_000, u64::MAX)).len() > 3);
}
