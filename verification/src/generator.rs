//! Drawing task sets and naming the reservations that an analysis found for them.
//!
//! The generator leaves two things to its caller: the split of a total utilization among
//! the tasks, which is drawn in floating point, and the search for a reservation. It asks
//! for the first with a [`UtilizationRequest`] and takes the answer in hundredths; it takes
//! the outcome of the second as [`MprModel`]s and keeps the feasible ones.

use vstd::prelude::*;
use rand::rngs::StdRng;
use rand::{Rng, SeedableRng};
use crate::grid::{grid_len, grid_value, last_grid_index, on_grid};
use crate::model::{sorted_by_period, ConfigView, NamedConfig, NamedTaskset, RTTask};
use crate::naming::{config_name, make_config_name, make_taskset_name, taskset_name};
use crate::sorting::{lemma_sorted_tasks, sort_by_period, sorted_tasks};
use crate::time::{lemma_product_fits, Bandwidth, Time};

verus! {

/// The generator of pseudo-random numbers of the `rand` crate.
#[verifier::external_type_specification]
#[verifier::external_body]
pub struct ExStdRng(StdRng);

/// What task sets are to be drawn.
#[derive(Clone, Copy, Debug, PartialEq, Eq)]
pub struct TasksetGeneratorOptions {
    /// How many task sets are drawn for each utilization.
    pub tasksets_per_utilization: u64,
    /// The least and the largest number of tasks of a task set.
    pub num_tasks: (u64, u64),
    /// The least period, the largest period and the step between two periods.
    pub task_period_ms: (Time, Time, Time),
    /// The least utilization, the largest and the step between two, in thousandths.
    pub taskset_utilization: (u64, u64, u64),
}

/// For which reservations an analysis is asked.
#[derive(Clone, Copy, Debug, PartialEq, Eq)]
pub struct AnalysisOptions {
    /// The least period, the largest period and the step between two periods.
    pub cgroup_period: (Time, Time, Time),
    /// The largest share of one processor that a reservation may take.
    pub max_per_core_bandwidth: Bandwidth,
    /// The largest number of processors that a reservation may span.
    pub max_cores: u64,
    /// The step in which budgets are tried.
    pub precision: Time,
}

/// A reservation as an analysis gives it: `resource` out of every `period`, on up to
/// `concurrency` processors at a time.
#[derive(Clone, Copy, Debug, PartialEq, Eq, Structural)]
pub struct MprModel {
    pub resource: Time,
    pub period: Time,
    pub concurrency: u64,
}

/// A source of seeds: each seed that is taken is one more than the one before, and
/// `u64::MAX` is followed by 0.
#[derive(Clone, Copy, Debug, PartialEq, Eq, Structural)]
pub struct SeedStream {
    pub next: u64,
}

/// What the generator asks of its caller: utilizations for `num_tasks` tasks that add up to
/// `utilization` thousandths, drawn with the seed `seed`.
#[derive(Clone, Copy, Debug, PartialEq, Eq, Structural)]
pub struct UtilizationRequest {
    pub num_tasks: u64,
    pub utilization: u64,
    pub seed: u64,
}

/// What became of an answer to a [`UtilizationRequest`].
#[derive(Clone, Debug, PartialEq, Eq)]
pub enum Supply {
    /// The answer made a task set.
    Generated(NamedTaskset),
    /// There was no answer, or none was asked for: the next request brings a fresh seed.
    Retry,
    /// The answer does not have one utilization for each task, or one of them is above 1.
    Rejected,
}

/// The generator of task sets, between two steps.
pub struct TasksetGenerator {
    pub options: TasksetGeneratorOptions,
    pub seeds: SeedStream,
    /// How many task sets were made so far.
    pub produced: u64,
    /// The utilization of the task sets that are being made, in thousandths.
    pub utilization: u64,
    /// How many task sets of that utilization were made so far.
    pub produced_here: u64,
    /// No task set is left to be made.
    pub exhausted: bool,
    /// The number of tasks of the task set that is being made, if one is.
    pub pending: Option<u64>,
    /// The source of the number of tasks and of the periods of that task set.
    pub rng: StdRng,
}

/// The successor of a seed or a count.
pub open spec fn wrapping_succ(x: u64) -> u64 {
    if x == u64::MAX {
        0
    } else {
        (x + 1) as u64
    }
}

/// The options ask for something that can be drawn: the bounds of the number of tasks and
/// of the periods stand in the right order.
pub open spec fn options_valid(options: TasksetGeneratorOptions) -> bool {
    options.num_tasks.0 <= options.num_tasks.1 && options.task_period_ms.0.micros
        <= options.task_period_ms.1.micros
}

/// The task of utilization `hundredths / 100` and period `period`: its execution time is
/// that share of the period, cut down to whole milliseconds, and its deadline is its period.
pub open spec fn task_of(hundredths: u64, period: Time) -> RTTask {
    RTTask {
        wcet: Time { micros: ((hundredths * period.micros) / 100_000 * 1000) as u64 },
        deadline: period,
        period,
    }
}

/// The tasks of the utilizations `utils` and the periods `periods`, in that order.
pub open spec fn tasks_of(utils: Seq<u64>, periods: Seq<Time>) -> Seq<RTTask> {
    Seq::new(utils.len(), |k: int| task_of(utils[k], periods[k]))
}

/// `period` is one of the periods that the options allow.
pub open spec fn period_allowed(period: Time, options: TasksetGeneratorOptions) -> bool {
    on_grid(
        period.micros as nat,
        options.task_period_ms.0.micros as nat,
        options.task_period_ms.1.micros as nat,
        options.task_period_ms.2.micros as nat,
    )
}

/// The answer has one utilization for each of `num_tasks` tasks, and none above 1.
pub open spec fn utils_acceptable(utils: Seq<u64>, num_tasks: u64) -> bool {
    utils.len() == num_tasks && forall|k: int| 0 <= k < utils.len() ==> #[trigger] utils[k] <= 100
}

/// The reservation is feasible: its budget is more than nothing and no more than its
/// processors can give in a period, it spans no more than `max_cores` processors, and the
/// share `resource / (concurrency * period)` that it takes of each is within the bound.
pub open spec fn model_feasible(model: MprModel, options: AnalysisOptions) -> bool {
    &&& 0 < model.resource.micros <= model.concurrency * model.period.micros
    &&& model.concurrency <= options.max_cores
    &&& model.resource.micros * 1_000_000 <= options.max_per_core_bandwidth.millionths * (
    model.concurrency * model.period.micros)
}

/// The reservations that are kept of `models`: the feasible ones, in their order, named by
/// their place among those kept.
pub open spec fn configs_of(prefix: Seq<char>, models: Seq<MprModel>, options: AnalysisOptions) -> Seq<
    ConfigView,
>
    decreases models.len(),
{
    if models.len() == 0 {
        Seq::empty()
    } else {
        let before = configs_of(prefix, models.drop_last(), options);
        if model_feasible(models.last(), options) {
            before.push(
                ConfigView {
                    name: config_name(prefix, before.len()),
                    cpus: models.last().concurrency,
                    runtime: models.last().resource,
                    period: models.last().period,
                },
            )
        } else {
            before
        }
    }
}

/// What the reservations hold.
pub open spec fn configs_view(configs: Seq<NamedConfig>) -> Seq<ConfigView> {
    Seq::new(configs.len(), |k: int| configs[k]@)
}

/// Every reservation that is kept is well formed and takes no more of each of its
/// processors than the bound allows.
pub proof fn lemma_configs_feasible(prefix: Seq<char>, models: Seq<MprModel>, options: AnalysisOptions)
    ensures
        configs_of(prefix, models, options).len() <= models.len(),
        forall|k: int|
            0 <= k < configs_of(prefix, models, options).len() ==> {
                let c = #[trigger] configs_of(prefix, models, options)[k];
                &&& c.well_formed()
                &&& c.cpus <= options.max_cores
                &&& c.runtime.micros * 1_000_000 <= options.max_per_core_bandwidth.millionths * (
                c.cpus * c.period.micros)
                &&& c.name == config_name(prefix, k as nat)
            },
    decreases models.len(),
{
    if models.len() > 0 {
        lemma_configs_feasible(prefix, models.drop_last(), options);
    }
}

/// The tasks of a generated task set come by rising period, each has its period for a
/// deadline, and none runs for longer than its period.
pub proof fn lemma_generated_tasks(utils: Seq<u64>, periods: Seq<Time>)
    requires
        periods.len() == utils.len(),
        forall|k: int| 0 <= k < utils.len() ==> #[trigger] utils[k] <= 100,
    ensures
        sorted_by_period(sorted_tasks(tasks_of(utils, periods))),
        sorted_tasks(tasks_of(utils, periods)).len() == utils.len(),
        sorted_tasks(tasks_of(utils, periods)).to_multiset() == tasks_of(utils, periods).to_multiset(),
        forall|k: int|
            0 <= k < utils.len() ==> {
                let t = #[trigger] tasks_of(utils, periods)[k];
                t.implicit_deadline() && t.wcet.micros <= t.period.micros && t.whole_millis_wcet()
            },
{
    lemma_sorted_tasks(tasks_of(utils, periods));
    assert forall|k: int| 0 <= k < utils.len() implies {
        let t = #[trigger] tasks_of(utils, periods)[k];
        t.implicit_deadline() && t.wcet.micros <= t.period.micros && t.whole_millis_wcet()
    } by {
        lemma_wcet_bound(utils[k], periods[k]);
    }
}

/// The execution time of a task of a utilization of at most 1 is no longer than its period.
pub proof fn lemma_wcet_bound(hundredths: u64, period: Time)
    requires
        hundredths <= 100,
    ensures
        (hundredths * period.micros) / 100_000 * 1000 <= period.micros,
        task_of(hundredths, period).wcet.micros == (hundredths * period.micros) / 100_000 * 1000,
{
    assert(hundredths * period.micros <= 100 * period.micros) by (nonlinear_arith)
        requires
            hundredths <= 100,
            period.micros >= 0,
    ;
}

impl SeedStream {
    pub fn new(seed: u64) -> (s: SeedStream)
        ensures
            s.next == seed,
    {
        SeedStream { next: seed }
    }

    /// Takes the next seed.
    pub fn take(&mut self) -> (seed: u64)
        ensures
            seed == old(self).next,
            final(self).next == wrapping_succ(old(self).next),
    {
        let seed = self.next;
        self.next = if seed == u64::MAX {
            0
        } else {
            seed + 1
        };
        seed
    }
}

/// A generator of pseudo-random numbers made from a seed, by `SeedableRng::seed_from_u64`
/// of the `rand` crate. Nothing is claimed of the numbers that it gives.
#[verifier::external_body]
pub(crate) fn seeded_rng(seed: u64) -> StdRng {
    StdRng::seed_from_u64(seed)
}

/// A number between `low` and `high`, both included, from `Rng::random_range` of the
/// `rand` crate, which is not called on an empty range. All that is claimed of the number
/// is that it lies in the range.
#[verifier::external_body]
pub(crate) fn draw_in_range(rng: &mut StdRng, low: u64, high: u64) -> (drawn: u64)
    requires
        low <= high,
    ensures
        low <= drawn <= high,
{
    rng.random_range(low..=high)
}

/// The task of a utilization in hundredths and a period.
pub fn make_task(hundredths: u64, period: Time) -> (task: RTTask)
    requires
        hundredths <= 100,
    ensures
        task == task_of(hundredths, period),
{
    proof {
        lemma_product_fits(hundredths, period.micros);
        lemma_wcet_bound(hundredths, period);
    }
    let share: u128 = (hundredths as u128) * (period.micros as u128) / 100_000u128;
    RTTask { wcet: Time { micros: (share * 1000u128) as u64 }, deadline: period, period }
}

/// The task set of the given name parts, utilizations and periods: one task for each
/// utilization, by rising period.
pub fn build_taskset(
    utilization: u64,
    index: u64,
    utils: &Vec<u64>,
    periods: &Vec<Time>,
) -> (taskset: NamedTaskset)
    requires
        periods@.len() == utils@.len(),
        forall|k: int| 0 <= k < utils@.len() ==> #[trigger] utils@[k] <= 100,
    ensures
        taskset.name@ == taskset_name(utilization as nat, utils@.len(), index as nat),
        taskset.tasks@ == sorted_tasks(tasks_of(utils@, periods@)),
        sorted_by_period(taskset.tasks@),
{
    let mut tasks: Vec<RTTask> = Vec::new();
    let mut k: usize = 0;
    while k < utils.len()
        invariant
            k <= utils.len(),
            periods@.len() == utils@.len(),
            forall|x: int| 0 <= x < utils@.len() ==> #[trigger] utils@[x] <= 100,
            tasks@.len() == k,
            forall|x: int| 0 <= x < k ==> #[trigger] tasks@[x] == task_of(utils@[x], periods@[x]),
        decreases utils.len() - k,
    {
        tasks.push(make_task(utils[k], periods[k]));
        k += 1;
    }
    proof {
        assert(tasks@ =~= tasks_of(utils@, periods@));
    }
    NamedTaskset {
        name: make_taskset_name(utilization, utils.len() as u64, index),
        tasks: sort_by_period(&tasks),
    }
}

/// Keeps the feasible ones of the reservations that an analysis found, and names them
/// `<prefix>_000`, `<prefix>_001` and so on.
pub fn generate_config(prefix: &str, models: &Vec<MprModel>, options: &AnalysisOptions) -> (configs:
    Vec<NamedConfig>)
    ensures
        configs_view(configs@) == configs_of(prefix@, models@, *options),
{
    let mut configs: Vec<NamedConfig> = Vec::new();
    let mut k: usize = 0;
    proof {
        assert(configs_view(configs@) =~= configs_of(prefix@, models@.take(0), *options));
    }
    while k < models.len()
        invariant
            k <= models.len(),
            configs@.len() <= k,
            configs_view(configs@) == configs_of(prefix@, models@.take(k as int), *options),
        decreases models.len() - k,
    {
        let model = models[k];
        proof {
            assert(models@.take(k + 1).drop_last() =~= models@.take(k as int));
            assert(models@.take(k + 1).last() == model);
            lemma_product_fits(model.concurrency, model.period.micros);
        }
        let capacity: u128 = (model.concurrency as u128) * (model.period.micros as u128);
        if model.resource.micros > 0 && (model.resource.micros as u128) <= capacity
            && model.concurrency <= options.max_cores && share_within(
            model.resource.micros,
            capacity,
            options.max_per_core_bandwidth,
        ) {
            let config = NamedConfig {
                name: make_config_name(prefix, configs.len() as u64),
                cpus: model.concurrency,
                runtime: model.resource,
                period: model.period,
            };
            proof {
                assert(configs_view(configs@.push(config)) =~= configs_view(configs@).push(config@));
            }
            configs.push(config);
        }
        k += 1;
    }
    proof {
        assert(models@.take(k as int) =~= models@);
    }
    configs
}

/// Whether `used` out of `capacity` is a share of at most `cap`.
fn share_within(used: u64, capacity: u128, cap: Bandwidth) -> (ok: bool)
    requires
        used <= capacity,
        capacity <= u64::MAX * u64::MAX,
    ensures
        ok == (used * 1_000_000 <= cap.millionths * capacity),
{
    if cap.millionths >= 1_000_000 {
        proof {
            assert(cap.millionths * capacity >= 1_000_000 * capacity) by (nonlinear_arith)
                requires
                    cap.millionths >= 1_000_000,
                    capacity >= 0,
            ;
        }
        true
    } else {
        // cap * capacity may leave 128 bits: its millionth part, rounded down, does not.
        let whole: u128 = capacity / 1_000_000;
        let rest: u128 = capacity % 1_000_000;
        let cap_m: u128 = cap.millionths as u128;
        proof {
            assert(cap_m * whole <= 1_000_000 * whole) by (nonlinear_arith)
                requires
                    cap_m < 1_000_000,
                    whole >= 0,
            ;
            assert(cap_m * rest <= 1_000_000 * 1_000_000) by (nonlinear_arith)
                requires
                    cap_m < 1_000_000,
                    0 <= rest < 1_000_000,
            ;
            assert(cap.millionths * capacity == cap_m * whole * 1_000_000 + cap_m * rest)
                by (nonlinear_arith)
                requires
                    capacity == whole * 1_000_000 + rest,
                    cap_m == cap.millionths,
            ;
        }
        let granted: u128 = cap_m * whole + (cap_m * rest) / 1_000_000;
        (used as u128) <= granted
    }
}

impl TasksetGenerator {
    /// The state is one that the steps of the generator lead to.
    pub open spec fn well_formed(self) -> bool {
        &&& options_valid(self.options)
        &&& !self.exhausted ==> self.produced_here < self.options.tasksets_per_utilization
        &&& self.pending matches Some(n) ==> !self.exhausted && self.options.num_tasks.0 <= n
            <= self.options.num_tasks.1
    }

    /// Where the generator stands after one more task set: at the same utilization until
    /// it has its number of task sets, then at the next one, and at the end behind the
    /// last. Gives the utilization, the count at that utilization, and whether that was all.
    pub open spec fn advanced(self) -> (u64, u64, bool) {
        let (_, max, step) = self.options.taskset_utilization;
        if self.produced_here + 1 < self.options.tasksets_per_utilization {
            (self.utilization, (self.produced_here + 1) as u64, false)
        } else if step == 0 || self.utilization + step > max {
            (self.utilization, 0, true)
        } else {
            ((self.utilization + step) as u64, 0, false)
        }
    }

    /// Nothing but the source of random numbers differs between the two states.
    pub open spec fn same_progress(self, other: TasksetGenerator) -> bool {
        &&& self.options == other.options
        &&& self.seeds == other.seeds
        &&& self.produced == other.produced
        &&& self.utilization == other.utilization
        &&& self.produced_here == other.produced_here
        &&& self.exhausted == other.exhausted
        &&& self.pending == other.pending
    }

    /// A generator that starts at the least utilization and takes its seeds from `seed` on.
    /// There is none for options whose bounds stand in the wrong order.
    pub fn new(options: TasksetGeneratorOptions, seed: u64) -> (generator: Option<TasksetGenerator>)
        ensures
            generator is Some == options_valid(options),
            generator matches Some(g) ==> {
                &&& g.well_formed()
                &&& g.options == options
                &&& g.seeds.next == seed
                &&& g.produced == 0
                &&& g.produced_here == 0
                &&& g.utilization == options.taskset_utilization.0
                &&& g.pending is None
                &&& g.exhausted == (options.tasksets_per_utilization == 0
                    || options.taskset_utilization.0 > options.taskset_utilization.1)
            },
    {
        if options.num_tasks.0 > options.num_tasks.1 || options.task_period_ms.0.micros
            > options.task_period_ms.1.micros {
            return None;
        }
        Some(
            TasksetGenerator {
                options,
                seeds: SeedStream::new(seed),
                produced: 0,
                utilization: options.taskset_utilization.0,
                produced_here: 0,
                exhausted: options.tasksets_per_utilization == 0 || options.taskset_utilization.0
                    > options.taskset_utilization.1,
                pending: None,
                rng: seeded_rng(seed),
            },
        )
    }

    /// Says what the caller is to draw next, or that every task set is made. A new task
    /// set takes one seed for its own source of random numbers, from which its number of
    /// tasks is drawn at once; every request takes one seed for the caller.
    pub fn next_request(&mut self) -> (request: Option<UtilizationRequest>)
        requires
            old(self).well_formed(),
        ensures
            final(self).well_formed(),
            final(self).options == old(self).options,
            final(self).produced == old(self).produced,
            final(self).utilization == old(self).utilization,
            final(self).produced_here == old(self).produced_here,
            final(self).exhausted == old(self).exhausted,
            request is None == old(self).exhausted,
            old(self).exhausted ==> final(self).same_progress(*old(self)) && final(self).rng == old(self).rng,
            request matches Some(r) ==> {
                &&& r.utilization == old(self).utilization
                &&& final(self).pending == Some(r.num_tasks)
                &&& old(self).options.num_tasks.0 <= r.num_tasks <= old(self).options.num_tasks.1
                &&& match old(self).pending {
                    Some(n) => r.num_tasks == n && r.seed == old(self).seeds.next && final(self).seeds.next == wrapping_succ(r.seed) && final(self).rng == old(self).rng,
                    None => r.seed == wrapping_succ(old(self).seeds.next) && final(self).seeds.next
                        == wrapping_succ(r.seed),
                }
            },
    {
        if self.exhausted {
            return None;
        }
        let num_tasks = match self.pending {
            Some(n) => n,
            None => {
                let own = self.seeds.take();
                self.rng = seeded_rng(own);
                let n = draw_in_range(&mut self.rng, self.options.num_tasks.0, self.options.num_tasks.1);
                self.pending = Some(n);
                n
            },
        };
        let seed = self.seeds.take();
        Some(UtilizationRequest { num_tasks, utilization: self.utilization, seed })
    }

    /// Takes the answer to the last request: the utilizations of the tasks in hundredths,
    /// or `None` where the draw was discarded. An answer that fits makes the task set: a
    /// period is drawn for each task from those that the options allow.
    pub fn supply(&mut self, answer: Option<Vec<u64>>) -> (supply: Supply)
        requires
            old(self).well_formed(),
        ensures
            final(self).well_formed(),
            final(self).options == old(self).options,
            final(self).seeds == old(self).seeds,
            (answer is None || old(self).pending is None) <==> supply is Retry,
            (answer matches Some(utils) && old(self).pending matches Some(n) && !utils_acceptable(
                utils@,
                n,
            )) <==> supply is Rejected,
            !(supply is Generated) ==> final(self).same_progress(*old(self)) && final(self).rng
                == old(self).rng,
            supply matches Supply::Generated(taskset) ==> {
                &&& answer matches Some(utils) && old(self).pending matches Some(n)
                    && utils_acceptable(utils@, n) && taskset.name@ == taskset_name(
                    old(self).utilization as nat,
                    n as nat,
                    old(self).produced as nat,
                ) && exists|periods: Seq<Time>|
                    {
                        &&& periods.len() == n
                        &&& forall|k: int|
                            0 <= k < periods.len() ==> period_allowed(
                                #[trigger] periods[k],
                                old(self).options,
                            )
                        &&& taskset.tasks@ == sorted_tasks(tasks_of(utils@, periods))
                    }
                &&& sorted_by_period(taskset.tasks@)
                &&& final(self).pending is None
                &&& final(self).produced == wrapping_succ(old(self).produced)
                &&& (final(self).utilization, final(self).produced_here, final(self).exhausted)
                    == old(self).advanced()
            },
    {
        let num_tasks = match self.pending {
            Some(n) => n,
            None => {
                return Supply::Retry;
            },
        };
        let utils = match answer {
            Some(utils) => utils,
            None => {
                return Supply::Retry;
            },
        };
        if utils.len() as u64 != num_tasks || !all_at_most_one(&utils) {
            return Supply::Rejected;
        }
        let (low, high, step) = self.options.task_period_ms;
        let last = last_grid_index(low.micros, high.micros, step.micros);
        let mut periods: Vec<Time> = Vec::new();
        let mut k: usize = 0;
        while k < utils.len()
            invariant
                k <= utils.len(),
                periods@.len() == k,
                low.micros <= high.micros,
                (low, high, step) == self.options.task_period_ms,
                self.options == old(self).options,
                self.same_progress(*old(self)),
                last + 1 == grid_len(low.micros as nat, high.micros as nat, step.micros as nat),
                forall|x: int|
                    0 <= x < periods@.len() ==> period_allowed(#[trigger] periods@[x], self.options),
            decreases utils.len() - k,
        {
            let place = draw_in_range(&mut self.rng, 0, last);
            let micros = grid_value(low.micros, high.micros, step.micros, place);
            periods.push(Time { micros });
            k += 1;
        }
        let taskset = build_taskset(self.utilization, self.produced, &utils, &periods);
        self.pending = None;
        self.produced = if self.produced == u64::MAX {
            0
        } else {
            self.produced + 1
        };
        let (_, u_max, u_step) = self.options.taskset_utilization;
        if self.produced_here + 1 < self.options.tasksets_per_utilization {
            self.produced_here = self.produced_here + 1;
        } else if u_step == 0 || u_step > u64::MAX - self.utilization || self.utilization + u_step
            > u_max {
            self.produced_here = 0;
            self.exhausted = true;
        } else {
            self.utilization = self.utilization + u_step;
            self.produced_here = 0;
        }
        proof {
            assert(periods@.len() == num_tasks);
        }
        Supply::Generated(taskset)
    }
}

/// Whether none of the utilizations, in hundredths, is above 1.
pub fn all_at_most_one(utils: &Vec<u64>) -> (ok: bool)
    ensures
        ok == forall|k: int| 0 <= k < utils@.len() ==> #[trigger] utils@[k] <= 100,
{
    let mut k: usize = 0;
    while k < utils.len()
        invariant
            k <= utils.len(),
            forall|x: int| 0 <= x < k ==> #[trigger] utils@[x] <= 100,
        decreases utils.len() - k,
    {
        if utils[k] > 100 {
            return false;
        }
        k += 1;
    }
    true
}

} // verus!
