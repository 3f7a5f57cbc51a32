//! Which runs a batch holds, in which order, and which of them the machine can take.

use vstd::prelude::*;
use vstd::multiset::Multiset;
use crate::codec::{parse_config, parse_config_text, parse_taskset, parse_taskset_text, ParseError};
use crate::model::{
    ConfigView, NamedTaskset, RTTask, RunView, RunnerArgsBase, TasksetRun,
    TasksetRunInsights, TasksetView,
};
use crate::order::{
    lemma_lex_le_antisymmetric, lemma_lex_le_total, lemma_lex_le_transitive, lex_le, name_le,
};
use crate::text::{push_text, same_text};
use crate::time::Time;

verus! {

/// Whether the machine can take the run:
/// the reservation asks for no more processors than there are, its bandwidth
/// `runtime / period` is within what may be allocated, and no task has a period shorter than
/// `period - runtime`, the longest time for which the reservation can leave it without
/// a processor.
pub open spec fn can_run(run: RunView, args: RunnerArgsBase) -> bool {
    &&& run.config.cpus <= args.max_num_cpus
    &&& run.config.runtime.spec_within_bandwidth(run.config.period, args.max_allocable_bw)
    &&& forall|k: int|
        0 <= k < run.taskset.tasks.len() ==> (#[trigger] run.taskset.tasks[k]).period.micros
            >= run.config.period.micros - run.config.runtime.micros
}

/// The longest period among the tasks; 0 where there is no task.
pub open spec fn max_period(tasks: Seq<RTTask>) -> nat
    decreases tasks.len(),
{
    if tasks.len() == 0 {
        0
    } else {
        let before = max_period(tasks.drop_last());
        if tasks.last().period.micros > before {
            tasks.last().period.micros as nat
        } else {
            before
        }
    }
}

/// How long the run is expected to take, in microseconds: the longest period times the
/// number of jobs of each task.
pub open spec fn expected_runtime(run: RunView, args: RunnerArgsBase) -> nat {
    max_period(run.taskset.tasks) * args.num_instances_per_job as nat
}

/// The file that holds the results of a run:
/// `<output_dir>/<taskset name>/output-<config name>`.
pub open spec fn results_path(output_dir: Seq<char>, taskset: Seq<char>, config: Seq<char>) -> Seq<
    char,
> {
    output_dir + "/"@ + taskset + "/output-"@ + config
}

/// The order of the runs of a batch: by the name of the task set, then by the name of the
/// reservation.
pub open spec fn run_le(a: RunView, b: RunView) -> bool {
    if a.taskset.name == b.taskset.name {
        lex_le(a.config.name, b.config.name)
    } else {
        lex_le(a.taskset.name, b.taskset.name)
    }
}

pub open spec fn runs_sorted(runs: Seq<TasksetRun>) -> bool {
    forall|i: int, j: int| 0 <= i <= j < runs.len() ==> run_le(#[trigger] runs[i]@, #[trigger] runs[j]@)
}

/// No period is longer than the longest, and where there is a task the longest period is
/// the period of one.
pub proof fn lemma_max_period(tasks: Seq<RTTask>)
    ensures
        forall|k: int| 0 <= k < tasks.len() ==> (#[trigger] tasks[k]).period.micros <= max_period(tasks),
        tasks.len() >= 1 ==> exists|k: int|
            0 <= k < tasks.len() && (#[trigger] tasks[k]).period.micros == max_period(tasks),
        max_period(tasks) <= u64::MAX,
    decreases tasks.len(),
{
    if tasks.len() > 0 {
        let init = tasks.drop_last();
        lemma_max_period(init);
        assert forall|k: int| 0 <= k < tasks.len() implies (#[trigger] tasks[k]).period.micros
            <= max_period(tasks) by {
            if k < init.len() {
                assert(init[k] == tasks[k]);
            }
        }
        if tasks.last().period.micros > max_period(init) || init.len() == 0 {
            assert(tasks[tasks.len() - 1].period.micros == max_period(tasks));
        } else {
            let w = choose|k: int|
                0 <= k < init.len() && (#[trigger] init[k]).period.micros == max_period(init);
            assert(init[w] == tasks[w]);
        }
    }
}

pub proof fn lemma_run_le_total(a: RunView, b: RunView)
    ensures
        run_le(a, b) || run_le(b, a),
{
    lemma_lex_le_total(a.config.name, b.config.name);
    lemma_lex_le_total(a.taskset.name, b.taskset.name);
}

pub proof fn lemma_run_le_transitive(a: RunView, b: RunView, c: RunView)
    requires
        run_le(a, b),
        run_le(b, c),
    ensures
        run_le(a, c),
{
    let (ta, tb, tc) = (a.taskset.name, b.taskset.name, c.taskset.name);
    if ta == tb && tb == tc {
        lemma_lex_le_transitive(a.config.name, b.config.name, c.config.name);
    } else if ta == tb {
    } else if tb == tc {
    } else {
        lemma_lex_le_transitive(ta, tb, tc);
        if ta == tc {
            lemma_lex_le_antisymmetric(ta, tb);
        }
    }
}

/// Whether the machine can take the run.
pub fn can_run_taskset(run: &TasksetRun, args: &RunnerArgsBase) -> (ok: bool)
    ensures
        ok == can_run(run@, *args),
{
    if run.config.cpus > args.max_num_cpus {
        return false;
    }
    if !run.config.runtime.within_bandwidth(run.config.period, args.max_allocable_bw) {
        return false;
    }
    if run.config.runtime.micros >= run.config.period.micros {
        return true;
    }
    let gap = run.config.period.micros - run.config.runtime.micros;
    let tasks = &run.taskset.tasks;
    let mut k: usize = 0;
    while k < tasks.len()
        invariant
            k <= tasks.len(),
            tasks == &run.taskset.tasks,
            gap == run.config.period.micros - run.config.runtime.micros,
            forall|x: int| 0 <= x < k ==> (#[trigger] tasks@[x]).period.micros >= gap,
        decreases tasks.len() - k,
    {
        if tasks[k].period.micros < gap {
            proof {
                assert(run@.taskset.tasks[k as int].period.micros < gap);
            }
            return false;
        }
        k += 1;
    }
    true
}

/// The longest period among the tasks; 0 where there is no task.
pub fn longest_period(tasks: &Vec<RTTask>) -> (longest: u64)
    ensures
        longest == max_period(tasks@),
{
    let mut longest: u64 = 0;
    let mut k: usize = 0;
    while k < tasks.len()
        invariant
            k <= tasks.len(),
            longest == max_period(tasks@.take(k as int)),
        decreases tasks.len() - k,
    {
        proof {
            assert(tasks@.take(k + 1).drop_last() =~= tasks@.take(k as int));
        }
        if tasks[k].period.micros > longest {
            longest = tasks[k].period.micros;
        }
        k += 1;
    }
    proof {
        assert(tasks@.take(k as int) =~= tasks@);
    }
    longest
}

/// How long the run is expected to take. There is no answer for a task set without a task,
/// nor where the time is longer than a [`Time`] can hold.
pub fn compute_insights(run: &TasksetRun, args: &RunnerArgsBase) -> (insights: Option<
    TasksetRunInsights,
>)
    ensures
        insights == if run.taskset.tasks@.len() >= 1 && expected_runtime(run@, *args) <= u64::MAX {
            Some(
                TasksetRunInsights {
                    expected_runtime: Time { micros: expected_runtime(run@, *args) as u64 },
                },
            )
        } else {
            None
        },
{
    let tasks = &run.taskset.tasks;
    if tasks.len() == 0 {
        return None;
    }
    let longest = longest_period(tasks);
    match (Time { micros: longest }).checked_mul(args.num_instances_per_job) {
        Some(t) => Some(TasksetRunInsights { expected_runtime: t }),
        None => None,
    }
}

/// The path of the file that holds the results of a run.
pub fn results_file_path(output_dir: &str, taskset_name: &str, config_name: &str) -> (path: String)
    ensures
        path@ == results_path(output_dir@, taskset_name@, config_name@),
{
    let mut path = String::new();
    push_text(&mut path, output_dir);
    push_text(&mut path, "/");
    push_text(&mut path, taskset_name);
    push_text(&mut path, "/output-");
    push_text(&mut path, config_name);
    proof {
        assert(path@ =~= results_path(output_dir@, taskset_name@, config_name@));
    }
    path
}

fn run_before(a: &TasksetRun, b: &TasksetRun) -> (r: bool)
    ensures
        r == run_le(a@, b@),
{
    let t_ab = name_le(a.taskset.name.as_str(), b.taskset.name.as_str());
    let t_ba = name_le(b.taskset.name.as_str(), a.taskset.name.as_str());
    proof {
        if t_ab && t_ba {
            lemma_lex_le_antisymmetric(a.taskset.name@, b.taskset.name@);
        }
        if a.taskset.name@ == b.taskset.name@ {
            lemma_lex_le_total(a.taskset.name@, b.taskset.name@);
        }
    }
    if t_ab && t_ba {
        name_le(a.config.name.as_str(), b.config.name.as_str())
    } else {
        t_ab
    }
}

/// Puts the runs in the order of the batch. The runs come out as they went in, each as
/// often as it went in.
pub fn sort_runs(runs: Vec<TasksetRun>) -> (out: Vec<TasksetRun>)
    ensures
        runs_sorted(out@),
        out@.to_multiset() == runs@.to_multiset(),
{
    let mut rest = runs;
    let mut out: Vec<TasksetRun> = Vec::new();
    proof {
        assert(out@.to_multiset().add(rest@.to_multiset()) =~= runs@.to_multiset()) by {
            out@.to_multiset_ensures();
        }
    }
    loop
        invariant
            runs_sorted(out@),
            out@.to_multiset().add(rest@.to_multiset()) == runs@.to_multiset(),
        decreases rest.len(),
    {
        let ghost before = rest@;
        let run = match rest.pop() {
            Some(run) => run,
            None => {
                proof {
                    rest@.to_multiset_ensures();
                    assert(rest@.to_multiset() =~= Multiset::<TasksetRun>::empty());
                    assert(out@.to_multiset() =~= runs@.to_multiset());
                }
                return out;
            },
        };
        proof {
            assert(before =~= rest@.push(run));
        }
        let mut p: usize = 0;
        while p < out.len() && run_before(&out[p], &run)
            invariant
                p <= out.len(),
                forall|x: int| 0 <= x < p ==> run_le(#[trigger] out@[x]@, run@),
            decreases out.len() - p,
        {
            p += 1;
        }
        proof {
            let next = out@.insert(p as int, run);
            assert forall|i: int, j: int| 0 <= i <= j < next.len() implies run_le(
                #[trigger] next[i]@,
                #[trigger] next[j]@,
            ) by {
                if j < p {
                    assert(next[i] == out@[i] && next[j] == out@[j]);
                } else if i > p {
                    assert(next[i] == out@[i - 1] && next[j] == out@[j - 1]);
                } else if i == p && j == p {
                    lemma_run_le_total(run@, run@);
                } else if i == p {
                    assert(next[j] == out@[j - 1]);
                    lemma_run_le_total(out@[p as int]@, run@);
                    assert(run_le(out@[p as int]@, out@[j - 1]@));
                    lemma_run_le_transitive(run@, out@[p as int]@, out@[j - 1]@);
                } else if j == p {
                    assert(next[i] == out@[i]);
                } else {
                    assert(next[i] == out@[i] && next[j] == out@[j - 1]);
                }
            }
            vstd::seq_lib::to_multiset_build(rest@, run);
            vstd::seq_lib::to_multiset_insert(out@, p as int, run);
            assert(before.to_multiset() =~= rest@.to_multiset().insert(run));
            assert(next.to_multiset() =~= out@.to_multiset().insert(run));
            assert(next.to_multiset().add(rest@.to_multiset()) =~= out@.to_multiset().add(
                before.to_multiset(),
            ));
        }
        out.insert(p, run);
    }
}

/// What is to be done with one directory of a batch.
#[derive(Clone, Debug, PartialEq, Eq)]
pub enum DirectoryPlan {
    /// The directory holds a task set and nothing to run it under: it is passed over.
    Skip,
    /// The task set is to be read, and each of these files as a reservation, in this order.
    Read { configs: Vec<String> },
}

/// Why a batch could not be planned.
#[derive(Clone, Copy, Debug, PartialEq, Eq, Structural)]
pub enum PlanError {
    /// A directory holds no file `taskset.txt`.
    MissingTaskset,
    /// The task set of a directory was not accepted.
    Taskset(ParseError),
    /// A reservation of a directory was not accepted.
    Config(ParseError),
}

/// Whether one of the file names is `taskset.txt`.
pub open spec fn holds_taskset_file(files: Seq<String>) -> bool {
    exists|k: int| 0 <= k < files.len() && (#[trigger] files[k])@ == "taskset.txt"@
}

/// The names of the files that are not `taskset.txt`, in their order.
pub open spec fn config_files(files: Seq<String>) -> Seq<Seq<char>>
    decreases files.len(),
{
    if files.len() == 0 {
        Seq::empty()
    } else if files.last()@ == "taskset.txt"@ {
        config_files(files.drop_last())
    } else {
        config_files(files.drop_last()).push(files.last()@)
    }
}

/// The texts that `names` hold.
pub open spec fn texts(names: Seq<String>) -> Seq<Seq<char>> {
    Seq::new(names.len(), |k: int| names[k]@)
}

/// What the runs hold.
pub open spec fn runs_view(runs: Seq<TasksetRun>) -> Seq<RunView> {
    Seq::new(runs.len(), |k: int| runs[k]@)
}

/// The run of a task set under a reservation, for a batch that writes below `output_dir`.
pub open spec fn run_of(taskset: TasksetView, config: ConfigView, output_dir: Seq<char>) -> RunView {
    RunView { taskset, config, results_file: results_path(output_dir, taskset.name, config.name) }
}

/// The runs of a task set under each of the reservations, or the failure of the first
/// reservation that is not accepted.
pub open spec fn runs_under(
    taskset: TasksetView,
    config_texts: Seq<Seq<char>>,
    output_dir: Seq<char>,
) -> Result<Seq<RunView>, PlanError>
    decreases config_texts.len(),
{
    if config_texts.len() == 0 {
        Ok(Seq::empty())
    } else {
        match runs_under(taskset, config_texts.drop_last(), output_dir) {
            Err(e) => Err(e),
            Ok(runs) => match parse_config_text(config_texts.last()) {
                Err(e) => Err(PlanError::Config(e)),
                Ok(config) => Ok(runs.push(run_of(taskset, config, output_dir))),
            },
        }
    }
}

/// The runs that one directory of a batch gives.
pub open spec fn directory_runs(
    taskset_text: Seq<char>,
    config_texts: Seq<Seq<char>>,
    output_dir: Seq<char>,
) -> Result<Seq<RunView>, PlanError> {
    match parse_taskset_text(taskset_text) {
        Err(e) => Err(PlanError::Taskset(e)),
        Ok(taskset) => runs_under(taskset, config_texts, output_dir),
    }
}

/// A failure among the first reservations is the failure of the whole.
pub proof fn lemma_runs_under_prefix(
    taskset: TasksetView,
    config_texts: Seq<Seq<char>>,
    output_dir: Seq<char>,
    k: int,
)
    requires
        0 <= k <= config_texts.len(),
        runs_under(taskset, config_texts.take(k), output_dir) is Err,
    ensures
        runs_under(taskset, config_texts, output_dir) == runs_under(
            taskset,
            config_texts.take(k),
            output_dir,
        ),
    decreases config_texts.len() - k,
{
    if k < config_texts.len() {
        assert(config_texts.take(k + 1).drop_last() =~= config_texts.take(k));
        lemma_runs_under_prefix(taskset, config_texts, output_dir, k + 1);
    } else {
        assert(config_texts.take(k) =~= config_texts);
    }
}

/// Decides from the names of the files of a directory what is to be read. A directory
/// without `taskset.txt` is an error; one with no other file is passed over.
pub fn classify_directory(files: &Vec<String>) -> (r: Result<DirectoryPlan, PlanError>)
    ensures
        match r {
            Err(e) => e == PlanError::MissingTaskset && !holds_taskset_file(files@),
            Ok(DirectoryPlan::Skip) => holds_taskset_file(files@) && files@.len() <= 1,
            Ok(DirectoryPlan::Read { configs }) => holds_taskset_file(files@) && files@.len() > 1
                && texts(configs@) == config_files(files@),
        },
{
    let mut found = false;
    let mut configs: Vec<String> = Vec::new();
    let mut k: usize = 0;
    proof {
        assert(texts(configs@) =~= config_files(files@.take(0)));
    }
    while k < files.len()
        invariant
            k <= files.len(),
            found == holds_taskset_file(files@.take(k as int)),
            texts(configs@) == config_files(files@.take(k as int)),
        decreases files.len() - k,
    {
        let ghost before = files@.take(k as int);
        let ghost next = files@.take(k + 1);
        proof {
            assert(next.drop_last() =~= before);
            assert(next.last() == files@[k as int]);
        }
        if same_text(files[k].as_str(), "taskset.txt") {
            proof {
                assert(next[k as int]@ == "taskset.txt"@);
            }
            found = true;
        } else {
            proof {
                if holds_taskset_file(next) {
                    let w = choose|w: int| 0 <= w < next.len() && (#[trigger] next[w])@ == "taskset.txt"@;
                    assert(before[w] == next[w]);
                }
                if holds_taskset_file(before) {
                    let w = choose|w: int|
                        0 <= w < before.len() && (#[trigger] before[w])@ == "taskset.txt"@;
                    assert(before[w] == next[w]);
                }
                assert(texts(configs@.push(files@[k as int])) =~= texts(configs@).push(
                    files@[k as int]@,
                ));
            }
            configs.push(files[k].clone());
        }
        k += 1;
    }
    proof {
        assert(files@.take(k as int) =~= files@);
    }
    if !found {
        Err(PlanError::MissingTaskset)
    } else if files.len() <= 1 {
        Ok(DirectoryPlan::Skip)
    } else {
        Ok(DirectoryPlan::Read { configs })
    }
}

/// A task set that holds what `taskset` holds.
pub fn copy_taskset(taskset: &NamedTaskset) -> (copy: NamedTaskset)
    ensures
        copy@ == taskset@,
{
    let mut tasks: Vec<RTTask> = Vec::new();
    let mut k: usize = 0;
    while k < taskset.tasks.len()
        invariant
            k <= taskset.tasks.len(),
            tasks@ == taskset.tasks@.take(k as int),
        decreases taskset.tasks.len() - k,
    {
        tasks.push(taskset.tasks[k]);
        proof {
            assert(tasks@ =~= taskset.tasks@.take(k + 1));
        }
        k += 1;
    }
    proof {
        assert(taskset.tasks@.take(k as int) =~= taskset.tasks@);
    }
    NamedTaskset { name: taskset.name.clone(), tasks }
}

/// The run of one task set under one reservation, its results going to `results_file`.
pub fn get_taskset_run(taskset_text: &str, config_text: &str, results_file: &str) -> (r: Result<
    TasksetRun,
    PlanError,
>)
    ensures
        match parse_taskset_text(taskset_text@) {
            Err(e) => r matches Err(x) && x == PlanError::Taskset(e),
            Ok(taskset) => match parse_config_text(config_text@) {
                Err(e) => r matches Err(x) && x == PlanError::Config(e),
                Ok(config) => r matches Ok(run) && run@ == (RunView {
                    taskset,
                    config,
                    results_file: results_file@,
                }),
            },
        },
{
    let taskset = match parse_taskset(taskset_text) {
        Ok(t) => t,
        Err(e) => {
            return Err(PlanError::Taskset(e));
        },
    };
    let config = match parse_config(config_text) {
        Ok(c) => c,
        Err(e) => {
            return Err(PlanError::Config(e));
        },
    };
    Ok(TasksetRun { taskset, config, results_file: results_file.to_owned() })
}

/// The runs that one directory gives: its task set under each of its reservations, in the
/// order of `config_texts`. The first text that is not accepted fails the directory.
pub fn directory_taskset_runs(
    taskset_text: &str,
    config_texts: &Vec<String>,
    output_dir: &str,
) -> (r: Result<Vec<TasksetRun>, PlanError>)
    ensures
        match directory_runs(taskset_text@, texts(config_texts@), output_dir@) {
            Ok(runs) => r matches Ok(v) && runs_view(v@) == runs,
            Err(e) => r matches Err(x) && x == e,
        },
{
    let taskset = match parse_taskset(taskset_text) {
        Ok(t) => t,
        Err(e) => {
            return Err(PlanError::Taskset(e));
        },
    };
    let ghost all = texts(config_texts@);
    let mut runs: Vec<TasksetRun> = Vec::new();
    let mut k: usize = 0;
    proof {
        assert(runs_view(runs@) =~= Seq::<RunView>::empty());
    }
    while k < config_texts.len()
        invariant
            k <= config_texts.len(),
            all == texts(config_texts@),
            parse_taskset_text(taskset_text@) == Ok::<TasksetView, ParseError>(taskset@),
            runs_under(taskset@, all.take(k as int), output_dir@) == Ok::<Seq<RunView>, PlanError>(
                runs_view(runs@),
            ),
        decreases config_texts.len() - k,
    {
        proof {
            assert(all.take(k + 1).drop_last() =~= all.take(k as int));
            assert(all.take(k + 1).last() == config_texts@[k as int]@);
        }
        let config = match parse_config(config_texts[k].as_str()) {
            Ok(c) => c,
            Err(e) => {
                proof {
                    assert(parse_config_text(all.take(k + 1).last()) == Err::<ConfigView, ParseError>(e));
                    assert(runs_under(taskset@, all.take(k + 1), output_dir@) == Err::<
                        Seq<RunView>,
                        PlanError,
                    >(PlanError::Config(e)));
                    lemma_runs_under_prefix(taskset@, all, output_dir@, k + 1);
                }
                return Err(PlanError::Config(e));
            },
        };
        let results_file = results_file_path(
            output_dir,
            taskset.name.as_str(),
            config.name.as_str(),
        );
        let run = TasksetRun { taskset: copy_taskset(&taskset), config, results_file };
        proof {
            assert(runs_view(runs@.push(run)) =~= runs_view(runs@).push(run@));
        }
        runs.push(run);
        k += 1;
    }
    proof {
        assert(all.take(k as int) =~= all);
    }
    Ok(runs)
}

/// A run that the machine can take can still be taken when the budget of its reservation
/// is halved, as long as the shorter budget leaves no task without a processor for longer
/// than its period.
pub proof fn lemma_halved_runtime_keeps_admissible(run: RunView, args: RunnerArgsBase, halved: RunView)
    requires
        can_run(run, args),
        halved.taskset == run.taskset,
        halved.config.cpus == run.config.cpus,
        halved.config.period == run.config.period,
        halved.config.runtime.micros == run.config.runtime.micros / 2,
        forall|k: int|
            0 <= k < run.taskset.tasks.len() ==> (#[trigger] run.taskset.tasks[k]).period.micros
                >= halved.config.period.micros - halved.config.runtime.micros,
    ensures
        can_run(halved, args),
{
}

/// A run that the machine can take can still be taken when the period of its reservation
/// is doubled, as long as the longer period leaves no task without a processor for longer
/// than its period.
pub proof fn lemma_doubled_period_keeps_admissible(run: RunView, args: RunnerArgsBase, doubled: RunView)
    requires
        can_run(run, args),
        doubled.taskset == run.taskset,
        doubled.config.cpus == run.config.cpus,
        doubled.config.runtime == run.config.runtime,
        doubled.config.period.micros == 2 * run.config.period.micros,
        forall|k: int|
            0 <= k < run.taskset.tasks.len() ==> (#[trigger] run.taskset.tasks[k]).period.micros
                >= doubled.config.period.micros - doubled.config.runtime.micros,
    ensures
        can_run(doubled, args),
{
    assert(args.max_allocable_bw.millionths * doubled.config.period.micros
        >= args.max_allocable_bw.millionths * run.config.period.micros) by (nonlinear_arith)
        requires
            doubled.config.period.micros == 2 * run.config.period.micros,
            args.max_allocable_bw.millionths >= 0,
            run.config.period.micros >= 0,
    ;
}

} // verus!
