//! The decisions of a batch: what to do with each run, whether what a run gave is complete,
//! and what the batch comes to.
//!
//! Nothing here touches the machine. The caller looks up whether a results file exists,
//! starts the workload and stores the text; the functions of this module say which of these
//! is due and judge what came back.

use vstd::prelude::*;
use crate::codec::{parse_result, parse_result_text, ParseError};
use crate::metrics::is_failure;
use crate::model::{
    tasks_known, ResultView, RTTask, RunnerArgsBase, TasksetRun, TasksetRunResult,
    TasksetRunResultInsights, TasksetRunResultInstance,
};
use crate::planner::{can_run, can_run_taskset, longest_period, max_period};
use crate::time::{lemma_product_fits, Bandwidth, Time};

verus! {

/// What is due for one run of a batch.
#[derive(Clone, Copy, Debug, PartialEq, Eq, Structural)]
pub enum RunAction {
    /// The machine cannot take the run: nothing is done.
    Skip,
    /// The results of the run are on disk: they are read, and nothing is started.
    Replay,
    /// The workload is started under the reservation, and its results are stored.
    Execute,
}

/// Why a run gave no result.
#[derive(Clone, Copy, Debug, PartialEq, Eq, Structural)]
pub enum RunError {
    /// The stored results were not accepted.
    Parse(ParseError),
    /// A job names a task that the task set does not hold.
    UnknownTask,
    /// Some task did not complete the number of jobs that was asked for.
    IncorrectOutput,
}

/// What a batch is about to do.
#[derive(Clone, Copy, Debug, PartialEq, Eq)]
pub struct BatchOutlook {
    /// The number of runs of the batch.
    pub total_runs: u64,
    /// The number of runs that the machine can take and that have no results yet.
    pub todo_runs: u64,
    /// The time that those runs are expected to take together, unless it is longer than a
    /// [`Time`] can hold.
    pub expected_runtime: Option<Time>,
}

/// What a batch came to. The ratio of failures is `failures / total`.
#[derive(Clone, Copy, Debug, PartialEq, Eq)]
pub struct BatchSummary {
    pub failures: u64,
    pub total: u64,
}

/// What is due for a run, `already_run` saying whether its results file exists.
pub open spec fn action_for(run: TasksetRun, args: RunnerArgsBase, already_run: bool) -> RunAction {
    if !can_run(run@, args) {
        RunAction::Skip
    } else if already_run {
        RunAction::Replay
    } else {
        RunAction::Execute
    }
}

/// Whether the results of run `k` are on disk, as far as `already_run` says.
pub open spec fn flag(already_run: Seq<bool>, k: int) -> bool {
    0 <= k < already_run.len() && already_run[k]
}

/// The number of runs that are still to be executed.
pub open spec fn todo_count(runs: Seq<TasksetRun>, already_run: Seq<bool>, args: RunnerArgsBase) -> nat
    decreases runs.len(),
{
    if runs.len() == 0 {
        0
    } else {
        todo_count(runs.drop_last(), already_run, args) + if action_for(
            runs.last(),
            args,
            flag(already_run, runs.len() - 1),
        ) == RunAction::Execute {
            1nat
        } else {
            0nat
        }
    }
}

/// The time, in microseconds, that the runs still to be executed are expected to take
/// together: for each, its longest period times the number of jobs of each task.
pub open spec fn todo_runtime(runs: Seq<TasksetRun>, already_run: Seq<bool>, args: RunnerArgsBase) -> nat
    decreases runs.len(),
{
    if runs.len() == 0 {
        0
    } else {
        todo_runtime(runs.drop_last(), already_run, args) + if action_for(
            runs.last(),
            args,
            flag(already_run, runs.len() - 1),
        ) == RunAction::Execute {
            max_period(runs.last().taskset.tasks@) * args.num_instances_per_job as nat
        } else {
            0nat
        }
    }
}

/// How many of the jobs belong to task `task`.
pub open spec fn jobs_of_task(results: Seq<TasksetRunResultInstance>, task: int) -> nat
    decreases results.len(),
{
    if results.len() == 0 {
        0
    } else {
        jobs_of_task(results.drop_last(), task) + if results.last().task == task {
            1nat
        } else {
            0nat
        }
    }
}

/// Every task of the task set completed exactly `expected` jobs.
pub open spec fn complete(
    tasks: Seq<RTTask>,
    results: Seq<TasksetRunResultInstance>,
    expected: u64,
) -> bool {
    forall|task: int| 0 <= task < tasks.len() ==> #[trigger] jobs_of_task(results, task) == expected
}

/// How many of the runs failed.
pub open spec fn count_failures(insights: Seq<TasksetRunResultInsights>) -> nat
    decreases insights.len(),
{
    if insights.len() == 0 {
        0
    } else {
        count_failures(insights.drop_last()) + if is_failure(insights.last()) {
            1nat
        } else {
            0nat
        }
    }
}

/// The root control group grants `runtime / period`; that is enough when it is no less than
/// `wanted`.
pub open spec fn root_bandwidth_suffices(runtime_us: u64, period_us: u64, wanted: Bandwidth) -> bool {
    runtime_us * 1_000_000 >= wanted.millionths * period_us
}

/// A run whose results are on disk is never executed again.
pub proof fn lemma_existing_results_are_not_rerun(run: TasksetRun, args: RunnerArgsBase)
    ensures
        action_for(run, args, true) != RunAction::Execute,
        todo_count(seq![run], seq![true], args) == 0,
{
    assert(seq![run].drop_last() =~= Seq::<TasksetRun>::empty());
    assert(todo_count(seq![run].drop_last(), seq![true], args) == 0);
}

pub proof fn lemma_jobs_of_task_bound(results: Seq<TasksetRunResultInstance>, task: int)
    ensures
        jobs_of_task(results, task) <= results.len(),
    decreases results.len(),
{
    if results.len() > 0 {
        lemma_jobs_of_task_bound(results.drop_last(), task);
    }
}

/// Says what is due for a run: nothing where the machine cannot take it, reading where its
/// results are on disk already, executing otherwise.
pub fn next_action(run: &TasksetRun, args: &RunnerArgsBase, already_run: bool) -> (action: RunAction)
    ensures
        action == action_for(*run, *args, already_run),
{
    if !can_run_taskset(run, args) {
        RunAction::Skip
    } else if already_run {
        RunAction::Replay
    } else {
        RunAction::Execute
    }
}

/// Whether the run is still to be executed: the machine can take it and it has no results.
pub fn can_run_filter(run: &TasksetRun, args: &RunnerArgsBase, already_run: bool) -> (todo: bool)
    ensures
        todo == (action_for(*run, *args, already_run) == RunAction::Execute),
{
    can_run_taskset(run, args) && !already_run
}

/// Counts the runs of a batch and those still to be executed, and adds up the time that the
/// latter are expected to take. `already_run[k]` says whether the results of `runs[k]` are
/// on disk; a run without such a flag counts as not yet run.
pub fn batch_outlook(runs: &Vec<TasksetRun>, already_run: &Vec<bool>, args: &RunnerArgsBase) -> (outlook:
    BatchOutlook)
    ensures
        outlook.total_runs == runs@.len(),
        outlook.todo_runs == todo_count(runs@, already_run@, *args),
        outlook.expected_runtime == if todo_runtime(runs@, already_run@, *args) <= u64::MAX {
            Some(Time { micros: todo_runtime(runs@, already_run@, *args) as u64 })
        } else {
            None
        },
{
    let mut todo: u64 = 0;
    let mut total: u64 = 0;
    let mut fits = true;
    let mut k: usize = 0;
    while k < runs.len()
        invariant
            k <= runs.len(),
            todo == todo_count(runs@.take(k as int), already_run@, *args),
            todo <= k,
            fits ==> total == todo_runtime(runs@.take(k as int), already_run@, *args),
            !fits ==> todo_runtime(runs@.take(k as int), already_run@, *args) > u64::MAX,
        decreases runs.len() - k,
    {
        proof {
            assert(runs@.take(k + 1).drop_last() =~= runs@.take(k as int));
            assert(runs@.take(k + 1).last() == runs@[k as int]);
        }
        let done = k < already_run.len() && already_run[k];
        if can_run_filter(&runs[k], args, done) {
            todo += 1;
            let longest = longest_period(&runs[k].taskset.tasks);
            proof {
                lemma_product_fits(longest, args.num_instances_per_job);
            }
            let time: u128 = (longest as u128) * (args.num_instances_per_job as u128);
            if fits && time <= (u64::MAX - total) as u128 {
                total = total + time as u64;
            } else {
                fits = false;
            }
        }
        k += 1;
    }
    proof {
        assert(runs@.take(k as int) =~= runs@);
    }
    BatchOutlook {
        total_runs: runs.len() as u64,
        todo_runs: todo,
        expected_runtime: if fits {
            Some(Time { micros: total })
        } else {
            None
        },
    }
}

/// Whether every job names a task of the task set.
pub fn all_tasks_known(tasks: &Vec<RTTask>, results: &Vec<TasksetRunResultInstance>) -> (ok: bool)
    ensures
        ok == tasks_known(tasks@, results@),
{
    let mut k: usize = 0;
    while k < results.len()
        invariant
            k <= results.len(),
            forall|x: int| 0 <= x < k ==> (#[trigger] results@[x]).task < tasks.len(),
        decreases results.len() - k,
    {
        if results[k].task >= tasks.len() as u64 {
            return false;
        }
        k += 1;
    }
    true
}

/// The result of a run whose results are on disk, from the text of its results file. The
/// text has to be accepted as results, and every job in it has to name a task of the run.
pub fn replay_result(run: TasksetRun, text: &str) -> (r: Result<TasksetRunResult, RunError>)
    ensures
        match parse_result_text(text@) {
            Err(e) => r matches Err(x) && x == RunError::Parse(e),
            Ok(results) => if tasks_known(run.taskset.tasks@, results) {
                r matches Ok(result) && result@ == (ResultView {
                    taskset: run.taskset@,
                    config: run.config@,
                    results,
                })
            } else {
                r matches Err(x) && x == RunError::UnknownTask
            },
        },
{
    let results = match parse_result(text) {
        Ok(results) => results,
        Err(e) => {
            return Err(RunError::Parse(e));
        },
    };
    if !all_tasks_known(&run.taskset.tasks, &results) {
        return Err(RunError::UnknownTask);
    }
    Ok(TasksetRunResult { taskset: run.taskset, config: run.config, results })
}

/// Whether every task of the task set completed exactly `expected` jobs.
pub fn check_instance_counts(
    tasks: &Vec<RTTask>,
    results: &Vec<TasksetRunResultInstance>,
    expected: u64,
) -> (ok: bool)
    ensures
        ok == complete(tasks@, results@, expected),
{
    let mut task: usize = 0;
    while task < tasks.len()
        invariant
            task <= tasks.len(),
            forall|t: int| 0 <= t < task ==> #[trigger] jobs_of_task(results@, t) == expected,
        decreases tasks.len() - task,
    {
        let mut count: u64 = 0;
        let mut k: usize = 0;
        while k < results.len()
            invariant
                k <= results.len(),
                count == jobs_of_task(results@.take(k as int), task as int),
                count <= k,
            decreases results.len() - k,
        {
            proof {
                assert(results@.take(k + 1).drop_last() =~= results@.take(k as int));
            }
            if results[k].task == task as u64 {
                count += 1;
            }
            k += 1;
        }
        proof {
            assert(results@.take(k as int) =~= results@);
        }
        if count != expected {
            return false;
        }
        task += 1;
    }
    true
}

/// The result of a run that was executed, from the jobs that the workload reported. Every
/// job has to name a task of the run, and every task has to have completed exactly
/// `args.num_instances_per_job` jobs.
pub fn accept_result(
    run: TasksetRun,
    results: Vec<TasksetRunResultInstance>,
    args: &RunnerArgsBase,
) -> (r: Result<TasksetRunResult, RunError>)
    ensures
        match r {
            Ok(result) => result@ == (ResultView {
                taskset: run.taskset@,
                config: run.config@,
                results: results@,
            }) && tasks_known(run.taskset.tasks@, results@) && complete(
                run.taskset.tasks@,
                results@,
                args.num_instances_per_job,
            ),
            Err(e) => if tasks_known(run.taskset.tasks@, results@) {
                e == RunError::IncorrectOutput && !complete(
                    run.taskset.tasks@,
                    results@,
                    args.num_instances_per_job,
                )
            } else {
                e == RunError::UnknownTask
            },
        },
{
    if !all_tasks_known(&run.taskset.tasks, &results) {
        return Err(RunError::UnknownTask);
    }
    if !check_instance_counts(&run.taskset.tasks, &results, args.num_instances_per_job) {
        return Err(RunError::IncorrectOutput);
    }
    Ok(TasksetRunResult { taskset: run.taskset, config: run.config, results })
}

/// Counts the failed runs among those that gave a result. A run has failed when a job of it
/// finished after its deadline.
pub fn summarize(insights: &Vec<TasksetRunResultInsights>, total_runs: u64) -> (summary: BatchSummary)
    ensures
        summary.failures == count_failures(insights@),
        summary.failures <= insights@.len(),
        summary.total == total_runs,
{
    let mut failures: u64 = 0;
    let mut k: usize = 0;
    while k < insights.len()
        invariant
            k <= insights.len(),
            failures == count_failures(insights@.take(k as int)),
            failures <= k,
        decreases insights.len() - k,
    {
        proof {
            assert(insights@.take(k + 1).drop_last() =~= insights@.take(k as int));
        }
        if insights[k].num_overruns > 0 {
            failures += 1;
        }
        k += 1;
    }
    proof {
        assert(insights@.take(k as int) =~= insights@);
    }
    BatchSummary { failures, total: total_runs }
}

/// Whether the root control group, which grants `runtime_us` out of every `period_us`,
/// grants at least the bandwidth `wanted`.
pub fn check_root_bandwidth(runtime_us: u64, period_us: u64, wanted: Bandwidth) -> (ok: bool)
    ensures
        ok == root_bandwidth_suffices(runtime_us, period_us, wanted),
{
    proof {
        lemma_product_fits(wanted.millionths, period_us);
    }
    let granted: u128 = (runtime_us as u128) * 1_000_000u128;
    let asked: u128 = (wanted.millionths as u128) * (period_us as u128);
    granted >= asked
}

} // verus!
