//! The records of an experiment: tasks, task sets, reservations, runs and their results.

use vstd::prelude::*;
use crate::time::{Bandwidth, Time, TimeDiff};

verus! {

/// A periodic real-time task.
#[derive(Clone, Copy, Debug, PartialEq, Eq, Structural)]
pub struct RTTask {
    pub wcet: Time,
    pub deadline: Time,
    pub period: Time,
}

impl RTTask {
    /// `0 < wcet <= deadline <= period`.
    pub open spec fn well_formed(self) -> bool {
        0 < self.wcet.micros <= self.deadline.micros <= self.period.micros
    }

    /// The deadline of each job is the start of the next period.
    pub open spec fn implicit_deadline(self) -> bool {
        self.deadline == self.period
    }

    /// The execution time is a whole number of milliseconds.
    pub open spec fn whole_millis_wcet(self) -> bool {
        self.wcet.spec_is_whole_millis()
    }

    /// All three durations are whole numbers of milliseconds.
    pub open spec fn whole_millis(self) -> bool {
        &&& self.wcet.spec_is_whole_millis()
        &&& self.deadline.spec_is_whole_millis()
        &&& self.period.spec_is_whole_millis()
    }
}

/// Whether the periods of `tasks` never go down from one task to the next.
pub open spec fn sorted_by_period(tasks: Seq<RTTask>) -> bool {
    forall|i: int, j: int|
        0 <= i <= j < tasks.len() ==> (#[trigger] tasks[i]).period.micros <= (
        #[trigger] tasks[j]).period.micros
}

/// A task set under a name without white space.
#[derive(Clone, Debug, PartialEq, Eq)]
pub struct NamedTaskset {
    pub name: String,
    pub tasks: Vec<RTTask>,
}

/// What a [`NamedTaskset`] holds.
pub struct TasksetView {
    pub name: Seq<char>,
    pub tasks: Seq<RTTask>,
}

impl View for NamedTaskset {
    type V = TasksetView;

    open spec fn view(&self) -> TasksetView {
        TasksetView { name: self.name@, tasks: self.tasks@ }
    }
}

/// A processor reservation: `runtime` out of every `period`, on up to `cpus` processors.
#[derive(Clone, Debug, PartialEq, Eq)]
pub struct NamedConfig {
    pub name: String,
    pub cpus: u64,
    pub runtime: Time,
    pub period: Time,
}

/// What a [`NamedConfig`] holds.
pub struct ConfigView {
    pub name: Seq<char>,
    pub cpus: u64,
    pub runtime: Time,
    pub period: Time,
}

impl View for NamedConfig {
    type V = ConfigView;

    open spec fn view(&self) -> ConfigView {
        ConfigView { name: self.name@, cpus: self.cpus, runtime: self.runtime, period: self.period }
    }
}

impl ConfigView {
    /// `0 < runtime <= cpus * period`.
    pub open spec fn well_formed(self) -> bool {
        0 < self.runtime.micros <= self.cpus * self.period.micros
    }
}

/// What every run of a batch is held to.
#[derive(Clone, Debug, PartialEq, Eq)]
pub struct RunnerArgsBase {
    /// The name of the control group that a run is placed in.
    pub cgroup: String,
    /// The number of processors of the machine.
    pub max_num_cpus: u64,
    /// The largest bandwidth that a reservation may ask for.
    pub max_allocable_bw: Bandwidth,
    /// How many jobs of each task a run measures.
    pub num_instances_per_job: u64,
}

/// One task set to be run under one reservation.
#[derive(Clone, Debug, PartialEq, Eq)]
pub struct TasksetRun {
    pub taskset: NamedTaskset,
    pub config: NamedConfig,
    pub results_file: String,
}

/// What a [`TasksetRun`] holds.
pub struct RunView {
    pub taskset: TasksetView,
    pub config: ConfigView,
    pub results_file: Seq<char>,
}

impl View for TasksetRun {
    type V = RunView;

    open spec fn view(&self) -> RunView {
        RunView { taskset: self.taskset@, config: self.config@, results_file: self.results_file@ }
    }
}

/// What is known of a run before it starts.
#[derive(Clone, Copy, Debug, PartialEq, Eq)]
pub struct TasksetRunInsights {
    pub expected_runtime: Time,
}

/// One completed job of one task.
#[derive(Clone, Copy, Debug, PartialEq, Eq, Structural)]
pub struct TasksetRunResultInstance {
    /// The index of the task in its task set.
    pub task: u64,
    /// The index of the job among the jobs of its task, from 0.
    pub instance: u64,
    pub abs_activation_time: Time,
    pub rel_start_time: Time,
    pub rel_finishing_time: Time,
}

/// The jobs that a run completed.
#[derive(Clone, Debug, PartialEq, Eq)]
pub struct TasksetRunResult {
    pub taskset: NamedTaskset,
    pub config: NamedConfig,
    pub results: Vec<TasksetRunResultInstance>,
}

/// What a [`TasksetRunResult`] holds.
pub struct ResultView {
    pub taskset: TasksetView,
    pub config: ConfigView,
    pub results: Seq<TasksetRunResultInstance>,
}

impl View for TasksetRunResult {
    type V = ResultView;

    open spec fn view(&self) -> ResultView {
        ResultView { taskset: self.taskset@, config: self.config@, results: self.results@ }
    }
}

/// What the jobs of a run say of its deadlines. The ratio of overruns is
/// `num_overruns / num_instances`.
#[derive(Clone, Copy, Debug, PartialEq, Eq)]
pub struct TasksetRunResultInsights {
    pub num_overruns: u64,
    pub num_instances: u64,
    pub worst_overrun: TimeDiff,
}

/// Every job names a task of `tasks`.
pub open spec fn tasks_known(tasks: Seq<RTTask>, results: Seq<TasksetRunResultInstance>) -> bool {
    forall|k: int| 0 <= k < results.len() ==> (#[trigger] results[k]).task < tasks.len()
}

/// By how much job `job` finished after the deadline of its task; negative when it finished
/// before it.
pub open spec fn overrun(tasks: Seq<RTTask>, job: TasksetRunResultInstance) -> int
    recommends
        job.task < tasks.len(),
{
    job.rel_finishing_time.micros - tasks[job.task as int].deadline.micros
}

} // verus!
