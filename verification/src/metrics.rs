//! What the jobs of a run say of its deadlines.

use vstd::prelude::*;
use crate::model::{
    overrun, tasks_known, RTTask, TasksetRunResult, TasksetRunResultInsights,
    TasksetRunResultInstance,
};
use crate::time::TimeDiff;

verus! {

/// How many of the jobs finished after their deadline.
pub open spec fn count_overruns(tasks: Seq<RTTask>, results: Seq<TasksetRunResultInstance>) -> nat
    decreases results.len(),
{
    if results.len() == 0 {
        0
    } else {
        count_overruns(tasks, results.drop_last()) + if overrun(tasks, results.last()) > 0 {
            1nat
        } else {
            0nat
        }
    }
}

/// The largest overrun among the jobs: of the job that finished latest with respect to its
/// deadline. It is negative when every job finished early, and 0 when there is no job.
pub open spec fn worst_overrun(tasks: Seq<RTTask>, results: Seq<TasksetRunResultInstance>) -> int
    decreases results.len(),
{
    if results.len() == 0 {
        0
    } else if results.len() == 1 {
        overrun(tasks, results[0])
    } else {
        let before = worst_overrun(tasks, results.drop_last());
        let last = overrun(tasks, results.last());
        if last > before {
            last
        } else {
            before
        }
    }
}

/// A run has failed when a job of it finished after its deadline.
pub open spec fn is_failure(insights: TasksetRunResultInsights) -> bool {
    insights.num_overruns > 0
}

/// No more jobs overran than there are jobs.
pub proof fn lemma_count_overruns_bound(
    tasks: Seq<RTTask>,
    results: Seq<TasksetRunResultInstance>,
)
    ensures
        count_overruns(tasks, results) <= results.len(),
    decreases results.len(),
{
    if results.len() > 0 {
        lemma_count_overruns_bound(tasks, results.drop_last());
    }
}

/// Where there is a job, the worst overrun is the overrun of one of the jobs, and no job
/// overran by more.
pub proof fn lemma_worst_overrun_is_max(
    tasks: Seq<RTTask>,
    results: Seq<TasksetRunResultInstance>,
)
    requires
        results.len() >= 1,
    ensures
        forall|k: int|
            0 <= k < results.len() ==> overrun(tasks, #[trigger] results[k]) <= worst_overrun(
                tasks,
                results,
            ),
        exists|k: int|
            0 <= k < results.len() && overrun(tasks, #[trigger] results[k]) == worst_overrun(
                tasks,
                results,
            ),
    decreases results.len(),
{
    if results.len() == 1 {
        assert(overrun(tasks, results[0]) == worst_overrun(tasks, results));
    } else {
        let init = results.drop_last();
        lemma_worst_overrun_is_max(tasks, init);
        let w = choose|k: int|
            0 <= k < init.len() && overrun(tasks, #[trigger] init[k]) == worst_overrun(tasks, init);
        assert(init[w] == results[w]);
        assert forall|k: int| 0 <= k < results.len() implies overrun(tasks, #[trigger] results[k])
            <= worst_overrun(tasks, results) by {
            if k < init.len() {
                assert(init[k] == results[k]);
            }
        }
        if overrun(tasks, results.last()) > worst_overrun(tasks, init) {
            assert(overrun(tasks, results[results.len() - 1]) == worst_overrun(tasks, results));
        } else {
            assert(overrun(tasks, results[w]) == worst_overrun(tasks, results));
        }
    }
}

/// There are overruns exactly when the worst overrun is a positive one.
pub proof fn lemma_failure_iff_worst_positive(
    tasks: Seq<RTTask>,
    results: Seq<TasksetRunResultInstance>,
)
    ensures
        count_overruns(tasks, results) > 0 <==> worst_overrun(tasks, results) > 0,
    decreases results.len(),
{
    if results.len() > 1 {
        lemma_failure_iff_worst_positive(tasks, results.drop_last());
    } else if results.len() == 1 {
        assert(results.drop_last().len() == 0);
        assert(count_overruns(tasks, results.drop_last()) == 0);
    }
}

/// Counts the jobs that finished after their deadline and finds the worst overrun. Every
/// job has to name a task of the task set.
pub fn compute_result_insights(run: &TasksetRunResult) -> (insights: TasksetRunResultInsights)
    requires
        tasks_known(run.taskset.tasks@, run.results@),
    ensures
        insights.num_overruns == count_overruns(run.taskset.tasks@, run.results@),
        insights.num_instances == run.results@.len(),
        insights.worst_overrun.micros == worst_overrun(run.taskset.tasks@, run.results@),
        insights.num_overruns <= insights.num_instances,
{
    let tasks = &run.taskset.tasks;
    let mut num_overruns: u64 = 0;
    let mut worst: i128 = 0;
    let mut k: usize = 0;
    while k < run.results.len()
        invariant
            k <= run.results.len(),
            tasks == &run.taskset.tasks,
            tasks_known(tasks@, run.results@),
            num_overruns == count_overruns(tasks@, run.results@.take(k as int)),
            num_overruns <= k,
            worst == worst_overrun(tasks@, run.results@.take(k as int)),
        decreases run.results.len() - k,
    {
        let job = &run.results[k];
        proof {
            let next = run.results@.take(k + 1);
            assert(next.drop_last() =~= run.results@.take(k as int));
            assert(next.last() == *job);
            assert(run.results@[k as int].task < tasks.len());
        }
        let late = job.rel_finishing_time.diff(tasks[job.task as usize].deadline);
        if late.is_positive() {
            num_overruns += 1;
        }
        if k == 0 || late.as_micros() > worst {
            worst = late.as_micros();
        }
        k += 1;
    }
    proof {
        assert(run.results@.take(k as int) =~= run.results@);
    }
    TasksetRunResultInsights {
        num_overruns,
        num_instances: run.results.len() as u64,
        worst_overrun: TimeDiff { micros: worst },
    }
}

} // verus!
