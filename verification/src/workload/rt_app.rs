//! The `rt-app` workload: its configuration, its logs and its calibration line.

use vstd::prelude::*;
use crate::codec::ParseError;
use crate::model::{RTTask, RunnerArgsBase, TasksetRunResultInstance};
use crate::naming::{padded_decimal, push_padded};
use crate::planner::{longest_period, max_period};
use crate::table::{lemma_scan_row_bounds, read_row, scan_row};
use crate::text::{
    chars_of, decimal_digits, has_tag, lemma_span_end, push_decimal, push_text, read_number,
    read_tag, scan_number, skip_class, span_end, CharClass,
};
use crate::time::Time;
use crate::workload::periodic_thread::{line_end, CalibrationError};

verus! {

/// Why no configuration was written.
#[derive(Clone, Copy, Debug, PartialEq, Eq, Structural)]
pub enum ConfigError {
    /// There is no task.
    NoTasks,
    /// There are more tasks than priorities.
    TooManyTasks,
    /// The run would take longer than a number of seconds can say.
    TooLong,
}

/// The calibration as the configuration names it: the number where it is known, the
/// processor to calibrate on where it is not.
pub open spec fn calibration_text(calibration: Option<u64>) -> Seq<char> {
    match calibration {
        Some(c) => decimal_digits(c as nat),
        None => "\"CPU0\""@,
    }
}

/// For how many seconds the workload is to run: the longest period times one more than
/// the number of jobs, rounded up to whole seconds.
pub open spec fn run_seconds(tasks: Seq<RTTask>, num_instances_per_job: u64) -> nat {
    ((max_period(tasks) * (num_instances_per_job + 1) + 999_999) / 1_000_000) as nat
}

/// The part of the configuration that holds for all tasks.
pub open spec fn global_text(seconds: nat, calibration: Option<u64>, log_dir: Seq<char>) -> Seq<char> {
    "\n    \"global\" : {\n\t\t\"duration\" : "@ + decimal_digits(seconds)
        + ",\n\t\t\"calibration\" : "@ + calibration_text(calibration)
        + ",\n\t\t\"default_policy\" : \"SCHED_OTHER\",\n\t\t\"pi_enabled\" : false,\n\t\t\"lock_pages\" : false,\n\t\t\"logdir\" : \""@
        + log_dir
        + "\",\n\t\t\"log_size\" : \"file\",\n\t\t\"log_basename\" : \"rt-app\",\n\t\t\"ftrace\" : \"none\",\n\t\t\"gnuplot\" : false,\n\t\t\"io_device\" : \"/dev/null\",\n\t\t\"mem_buffer_size\" : 4194304,\n\t\t\"cumulative_slack\" : false\n    }"@
}

/// The part of the configuration that holds for the task of index `index`: it runs at the
/// priority `99 - index` for its execution time in every period, both in microseconds.
pub open spec fn task_text(index: nat, task: RTTask) -> Seq<char> {
    "\n\t\t\"task"@ + padded_decimal(index, 2)
        + "\": {\n            \"policy\": \"SCHED_FIFO\",\n            \"priority\": "@
        + decimal_digits((99 - index) as nat) + ",\n            \"run\": "@ + decimal_digits(
        task.wcet.micros as nat,
    ) + ",\n\t\t\t\"timer\": {\n\t\t\t\t\"ref\": \"unique\",\n\t\t\t\t\"period\": "@
        + decimal_digits(task.period.micros as nat)
        + ",\n\t\t\t\t\"mode\": \"absolute\"\n\t\t\t}\n\t\t}"@
}

/// The parts of the first `count` tasks, with a comma between two.
pub open spec fn tasks_text(tasks: Seq<RTTask>, count: nat) -> Seq<char>
    decreases count,
{
    if count == 0 {
        Seq::empty()
    } else if count == 1 {
        task_text(0, tasks[0])
    } else {
        tasks_text(tasks, (count - 1) as nat) + ",\n"@ + task_text(
            (count - 1) as nat,
            tasks[count - 1],
        )
    }
}

/// The configuration that runs `tasks` for `seconds` seconds.
pub open spec fn config_text(
    tasks: Seq<RTTask>,
    seconds: nat,
    calibration: Option<u64>,
    log_dir: Seq<char>,
) -> Seq<char> {
    "{\n"@ + global_text(seconds, calibration, log_dir) + ",\n\n\t\"tasks\": {\n\t\t"@ + tasks_text(
        tasks,
        tasks.len(),
    ) + "\n\t}\n}"@
}

/// A whole number with an optional `-` in front, at `i`. Gives whether it is negative, its
/// magnitude and the position after it.
pub open spec fn scan_signed(s: Seq<char>, i: int) -> Option<(bool, u64, int)> {
    let negative = 0 <= i < s.len() && s[i] == '-';
    let a = if negative {
        i + 1
    } else {
        i
    };
    match scan_number(s, a, u64::MAX as nat) {
        Some((v, e)) => Some((negative, v as u64, e)),
        None => None,
    }
}

/// One line of a log at `i`: the index of the task, the performance, the run time, the
/// period, the start, the end, the relative start, the slack, the duration and the period
/// that were configured, and the wake-up latency. The slack may be negative.
pub open spec fn scan_log_row(s: Seq<char>, i: int) -> Option<(Seq<u64>, bool, u64, Seq<u64>, int)> {
    match scan_row(s, i, 7) {
        None => None,
        Some((head, j)) => {
            let k = span_end(s, j, CharClass::Blank);
            match scan_signed(s, k) {
                None => None,
                Some((negative, slack, e)) => {
                    let m = span_end(s, e, CharClass::Blank);
                    match scan_row(s, m, 3) {
                        None => None,
                        Some((tail, end)) => if k > j && m > e {
                            Some((head, negative, slack, tail, end))
                        } else {
                            None
                        },
                    }
                },
            }
        },
    }
}

/// The job that a line of a log stands for, `instance` being the place of the line among
/// the lines of jobs: it was activated at the start, it finished `period - slack`
/// after that, and it started its run time before it finished. No job stands for a line
/// whose times would be negative or too large to hold.
pub open spec fn job_of_log_row(
    head: Seq<u64>,
    negative: bool,
    slack: u64,
    tail: Seq<u64>,
    instance: nat,
) -> Option<TasksetRunResultInstance> {
    let finish: int = if negative {
        tail[1] + slack
    } else {
        tail[1] - slack
    };
    let start: int = finish - head[2];
    if 0 <= start && finish <= u64::MAX && instance <= u64::MAX {
        Some(
            TasksetRunResultInstance {
                task: head[0],
                instance: instance as u64,
                abs_activation_time: Time { micros: head[4] },
                rel_start_time: Time { micros: start as u64 },
                rel_finishing_time: Time { micros: finish as u64 },
            },
        )
    } else {
        None
    }
}

/// The jobs that a log lists from position `i` on, `done` of them being read already.
/// Blank lines and lines that begin with `#` say nothing; every other line has to give a job.
pub open spec fn scan_log(s: Seq<char>, i: int, done: nat) -> Result<
    Seq<TasksetRunResultInstance>,
    ParseError,
>
    decreases s.len() - i,
{
    let a = span_end(s, i, CharClass::Gap);
    if i < 0 || a < i || a >= s.len() {
        Ok(Seq::empty())
    } else if s[a] == '#' {
        let e = line_end(s, a);
        if i < e <= s.len() {
            scan_log(s, e, done)
        } else {
            Ok(Seq::empty())
        }
    } else {
        match scan_log_row(s, a) {
            None => Err(ParseError::Malformed),
            Some((head, negative, slack, tail, j)) => match job_of_log_row(
                head,
                negative,
                slack,
                tail,
                done,
            ) {
                None => Err(ParseError::OutOfRange),
                Some(job) => {
                    let e = line_end(s, j);
                    if i < e <= s.len() {
                        match scan_log(s, e, done + 1) {
                            Err(err) => Err(err),
                            Ok(rest) => Ok(seq![job] + rest),
                        }
                    } else {
                        Ok(seq![job])
                    }
                },
            },
        }
    }
}

/// Whether `tag` stands somewhere between `i` and `end`.
pub open spec fn tag_within(s: Seq<char>, i: int, end: int, tag: Seq<char>) -> bool {
    exists|p: int| i <= p && p + tag.len() <= end && #[trigger] has_tag(s, p, tag)
}

/// The start of the first line from position `i` on that holds `pLoad =`, if there is one.
pub open spec fn find_load_line(s: Seq<char>, i: int) -> Option<int>
    decreases s.len() - i,
{
    let e = line_end(s, i);
    if i < 0 || i >= s.len() {
        None
    } else if tag_within(s, i, e, "pLoad ="@) {
        Some(i)
    } else if i <= e < s.len() {
        find_load_line(s, e + 1)
    } else {
        None
    }
}

/// The start of the word number `n` (from 0) of the line that starts at `i`.
pub open spec fn word_start(s: Seq<char>, i: int, n: nat) -> int
    decreases n,
{
    if n == 0 {
        span_end(s, i, CharClass::Blank)
    } else {
        let before = word_start(s, i, (n - 1) as nat);
        span_end(s, span_end(s, before, CharClass::Solid), CharClass::Blank)
    }
}

/// The calibration that the output of a calibration run gives: on the first line that
/// holds `pLoad =`, the fifth word, which is a number followed by `ns`.
pub open spec fn scan_load(s: Seq<char>) -> Result<u64, CalibrationError> {
    match find_load_line(s, 0) {
        None => Err(CalibrationError::NotFound),
        Some(p) => {
            let w = word_start(s, p, 4);
            match scan_number(s, w, u64::MAX as nat) {
                Some((v, e)) => if has_tag(s, e, "ns"@) && span_end(s, w, CharClass::Solid) == e
                    + 2 {
                    Ok(v as u64)
                } else {
                    Err(CalibrationError::Malformed)
                },
                None => Err(CalibrationError::Malformed),
            }
        },
    }
}

/// For how many seconds the workload is to run, unless there is no task or the number is
/// too large.
pub fn taskset_run_seconds(tasks: &Vec<RTTask>, num_instances_per_job: u64) -> (seconds: Option<u64>)
    ensures
        seconds == if tasks@.len() > 0 && run_seconds(tasks@, num_instances_per_job) <= u64::MAX {
            Some(run_seconds(tasks@, num_instances_per_job) as u64)
        } else {
            None
        },
{
    if tasks.len() == 0 {
        return None;
    }
    let longest = longest_period(tasks);
    proof {
        assert(longest * (num_instances_per_job + 1) <= 0xffff_ffff_ffff_ffff * 0x1_0000_0000_0000_0000)
            by (nonlinear_arith)
            requires
                0 <= longest <= 0xffff_ffff_ffff_ffff,
                0 <= num_instances_per_job + 1 <= 0x1_0000_0000_0000_0000,
        ;
    }
    let micros: u128 = (longest as u128) * (num_instances_per_job as u128 + 1);
    let seconds: u128 = (micros + 999_999) / 1_000_000;
    if seconds <= u64::MAX as u128 {
        Some(seconds as u64)
    } else {
        None
    }
}

fn push_task_text(out: &mut String, index: usize, task: &RTTask)
    requires
        index <= 99,
    ensures
        final(out)@ == old(out)@ + task_text(index as nat, *task),
{
    push_text(out, "\n\t\t\"task");
    push_padded(out, index as u64, 2);
    push_text(out, "\": {\n            \"policy\": \"SCHED_FIFO\",\n            \"priority\": ");
    push_decimal(out, (99 - index) as u128);
    push_text(out, ",\n            \"run\": ");
    push_decimal(out, task.wcet.micros as u128);
    push_text(out, ",\n\t\t\t\"timer\": {\n\t\t\t\t\"ref\": \"unique\",\n\t\t\t\t\"period\": ");
    push_decimal(out, task.period.micros as u128);
    push_text(out, ",\n\t\t\t\t\"mode\": \"absolute\"\n\t\t\t}\n\t\t}");
    proof {
        assert(out@ =~= old(out)@ + task_text(index as nat, *task));
    }
}

/// The configuration that lets `rt-app` run the tasks: each task at the priority 99 less
/// its index, for one job more than is measured. There is none without a task, for more
/// than a hundred tasks, or for a run too long to state.
pub fn generate_taskset_config(
    tasks: &Vec<RTTask>,
    args: &RunnerArgsBase,
    calibration: Option<u64>,
    log_dir: &str,
) -> (r: Result<String, ConfigError>)
    ensures
        match r {
            Ok(text) => 0 < tasks@.len() <= 100 && run_seconds(tasks@, args.num_instances_per_job)
                <= u64::MAX && text@ == config_text(
                tasks@,
                run_seconds(tasks@, args.num_instances_per_job),
                calibration,
                log_dir@,
            ),
            Err(e) => if tasks@.len() == 0 {
                e == ConfigError::NoTasks
            } else if tasks@.len() > 100 {
                e == ConfigError::TooManyTasks
            } else {
                e == ConfigError::TooLong && run_seconds(tasks@, args.num_instances_per_job)
                    > u64::MAX
            },
        },
{
    if tasks.len() == 0 {
        return Err(ConfigError::NoTasks);
    }
    if tasks.len() > 100 {
        return Err(ConfigError::TooManyTasks);
    }
    let seconds = match taskset_run_seconds(tasks, args.num_instances_per_job) {
        Some(seconds) => seconds,
        None => {
            return Err(ConfigError::TooLong);
        },
    };
    let mut out = String::new();
    push_text(&mut out, "{\n");
    push_text(&mut out, "\n    \"global\" : {\n\t\t\"duration\" : ");
    push_decimal(&mut out, seconds as u128);
    push_text(&mut out, ",\n\t\t\"calibration\" : ");
    match calibration {
        Some(c) => {
            push_decimal(&mut out, c as u128);
        },
        None => {
            push_text(&mut out, "\"CPU0\"");
        },
    }
    push_text(
        &mut out,
        ",\n\t\t\"default_policy\" : \"SCHED_OTHER\",\n\t\t\"pi_enabled\" : false,\n\t\t\"lock_pages\" : false,\n\t\t\"logdir\" : \"",
    );
    push_text(&mut out, log_dir);
    push_text(
        &mut out,
        "\",\n\t\t\"log_size\" : \"file\",\n\t\t\"log_basename\" : \"rt-app\",\n\t\t\"ftrace\" : \"none\",\n\t\t\"gnuplot\" : false,\n\t\t\"io_device\" : \"/dev/null\",\n\t\t\"mem_buffer_size\" : 4194304,\n\t\t\"cumulative_slack\" : false\n    }",
    );
    push_text(&mut out, ",\n\n\t\"tasks\": {\n\t\t");
    let ghost head = out@;
    proof {
        assert(head =~= "{\n"@ + global_text(seconds as nat, calibration, log_dir@)
            + ",\n\n\t\"tasks\": {\n\t\t"@);
        assert(out@ =~= head + tasks_text(tasks@, 0));
    }
    let mut k: usize = 0;
    while k < tasks.len()
        invariant
            k <= tasks.len() <= 100,
            out@ == head + tasks_text(tasks@, k as nat),
        decreases tasks.len() - k,
    {
        if k > 0 {
            push_text(&mut out, ",\n");
        }
        push_task_text(&mut out, k, &tasks[k]);
        proof {
            assert(out@ =~= head + tasks_text(tasks@, (k + 1) as nat));
        }
        k += 1;
    }
    push_text(&mut out, "\n\t}\n}");
    proof {
        assert(out@ =~= config_text(tasks@, seconds as nat, calibration, log_dir@));
    }
    Ok(out)
}

fn read_signed(s: &[char], i: usize) -> (r: Option<(bool, u64, usize)>)
    requires
        i <= s.len(),
    ensures
        match scan_signed(s@, i as int) {
            Some((negative, v, e)) => r == Some((negative, v, e as usize)) && i < e <= s.len(),
            None => r is None,
        },
{
    let negative = i < s.len() && s[i] == '-';
    let a: usize = if negative {
        i + 1
    } else {
        i
    };
    match read_number(s, a, u64::MAX) {
        Some((v, e)) => Some((negative, v, e)),
        None => None,
    }
}

fn read_log_row(s: &[char], i: usize) -> (r: Option<(Vec<u64>, bool, u64, Vec<u64>, usize)>)
    requires
        i <= s.len(),
    ensures
        match scan_log_row(s@, i as int) {
            Some((head, negative, slack, tail, end)) => r matches Some((h, n, sl, t, e)) && h@
                == head && n == negative && sl == slack && t@ == tail && e == end && i < e
                <= s.len() && h@.len() == 7 && t@.len() == 3,
            None => r is None,
        },
{
    proof {
        lemma_scan_row_bounds(s@, i as int, 7);
    }
    let (head, j) = match read_row(s, i, 7) {
        Some(x) => x,
        None => {
            return None;
        },
    };
    let k = skip_class(s, j, CharClass::Blank);
    let (negative, slack, e) = match read_signed(s, k) {
        Some(x) => x,
        None => {
            return None;
        },
    };
    let m = skip_class(s, e, CharClass::Blank);
    proof {
        lemma_scan_row_bounds(s@, m as int, 3);
    }
    let (tail, end) = match read_row(s, m, 3) {
        Some(x) => x,
        None => {
            return None;
        },
    };
    if k > j && m > e {
        Some((head, negative, slack, tail, end))
    } else {
        None
    }
}

/// Reads the log of one task: one job for each line that is neither blank nor a remark,
/// numbered in the order of the lines.
pub fn parse_task_result(data: &str) -> (r: Result<Vec<TasksetRunResultInstance>, ParseError>)
    ensures
        match scan_log(data@, 0, 0) {
            Ok(jobs) => r matches Ok(v) && v@ == jobs,
            Err(e) => r matches Err(x) && x == e,
        },
{
    let chars = chars_of(data);
    let s = chars.as_slice();
    let mut jobs: Vec<TasksetRunResultInstance> = Vec::new();
    let mut i: usize = 0;
    loop
        invariant
            i <= s.len(),
            s@ == data@,
            match scan_log(s@, i as int, jobs@.len()) {
                Ok(rest) => scan_log(s@, 0, 0) == Ok::<Seq<TasksetRunResultInstance>, ParseError>(
                    jobs@ + rest,
                ),
                Err(e) => scan_log(s@, 0, 0) == Err::<Seq<TasksetRunResultInstance>, ParseError>(e),
            },
        decreases s.len() - i,
    {
        let a = skip_class(s, i, CharClass::Gap);
        if a >= s.len() {
            proof {
                assert(jobs@ + Seq::<TasksetRunResultInstance>::empty() =~= jobs@);
            }
            return Ok(jobs);
        }
        if s[a] == '#' {
            let e = skip_class(s, a, CharClass::Inline);
            proof {
                assert(span_end(s@, a as int, CharClass::Inline) == span_end(
                    s@,
                    a + 1,
                    CharClass::Inline,
                ));
                lemma_span_end(s@, a + 1, CharClass::Inline);
            }
            i = e;
        } else {
            let (head, negative, slack, tail, j) = match read_log_row(s, a) {
                Some(x) => x,
                None => {
                    return Err(ParseError::Malformed);
                },
            };
            let period = tail[1];
            let run = head[2];
            let finish: u64 = if negative {
                if slack > u64::MAX - period {
                    return Err(ParseError::OutOfRange);
                }
                period + slack
            } else {
                if slack > period {
                    return Err(ParseError::OutOfRange);
                }
                period - slack
            };
            if run > finish {
                return Err(ParseError::OutOfRange);
            }
            let job = TasksetRunResultInstance {
                task: head[0],
                instance: jobs.len() as u64,
                abs_activation_time: Time { micros: head[4] },
                rel_start_time: Time { micros: finish - run },
                rel_finishing_time: Time { micros: finish },
            };
            let e = skip_class(s, j, CharClass::Inline);
            let ghost before = jobs@;
            proof {
                lemma_span_end(s@, j as int, CharClass::Inline);
                assert(job_of_log_row(head@, negative, slack, tail@, before.len()) == Some(job));
                match scan_log(s@, e as int, before.len() + 1) {
                    Ok(rest) => {
                        assert(before + (seq![job] + rest) =~= before.push(job) + rest);
                    },
                    Err(_) => {},
                }
            }
            jobs.push(job);
            i = e;
        }
    }
}

/// The jobs of all tasks, from the logs of the tasks in the order of the tasks. A task
/// without a log, or with a log that is not accepted, fails the whole.
pub open spec fn scan_logs(logs: Seq<Option<String>>) -> Result<
    Seq<TasksetRunResultInstance>,
    ParseError,
>
    decreases logs.len(),
{
    if logs.len() == 0 {
        Ok(Seq::empty())
    } else {
        match scan_logs(logs.drop_last()) {
            Err(e) => Err(e),
            Ok(before) => match logs.last() {
                None => Err(ParseError::Malformed),
                Some(text) => match scan_log(text@, 0, 0) {
                    Err(e) => Err(e),
                    Ok(jobs) => Ok(before + jobs),
                },
            },
        }
    }
}

/// A failure among the first logs is the failure of the whole.
pub proof fn lemma_scan_logs_prefix(logs: Seq<Option<String>>, k: int)
    requires
        0 <= k <= logs.len(),
        scan_logs(logs.take(k)) is Err,
    ensures
        scan_logs(logs) == scan_logs(logs.take(k)),
    decreases logs.len() - k,
{
    if k < logs.len() {
        assert(logs.take(k + 1).drop_last() =~= logs.take(k));
        lemma_scan_logs_prefix(logs, k + 1);
    } else {
        assert(logs.take(k) =~= logs);
    }
}

/// Reads the logs of all tasks, `logs[i]` being the log of the task of index `i`, or
/// `None` where there is no such file.
pub fn parse_taskset_results(logs: &Vec<Option<String>>) -> (r: Result<
    Vec<TasksetRunResultInstance>,
    ParseError,
>)
    ensures
        match scan_logs(logs@) {
            Ok(jobs) => r matches Ok(v) && v@ == jobs,
            Err(e) => r matches Err(x) && x == e,
        },
{
    let mut all: Vec<TasksetRunResultInstance> = Vec::new();
    let mut k: usize = 0;
    while k < logs.len()
        invariant
            k <= logs.len(),
            scan_logs(logs@.take(k as int)) == Ok::<Seq<TasksetRunResultInstance>, ParseError>(all@),
        decreases logs.len() - k,
    {
        proof {
            assert(logs@.take(k + 1).drop_last() =~= logs@.take(k as int));
            assert(logs@.take(k + 1).last() == logs@[k as int]);
        }
        let mut jobs = match &logs[k] {
            None => {
                proof {
                    lemma_scan_logs_prefix(logs@, k + 1);
                }
                return Err(ParseError::Malformed);
            },
            Some(text) => match parse_task_result(text.as_str()) {
                Ok(jobs) => jobs,
                Err(e) => {
                    proof {
                        lemma_scan_logs_prefix(logs@, k + 1);
                    }
                    return Err(e);
                },
            },
        };
        all.append(&mut jobs);
        k += 1;
    }
    proof {
        assert(logs@.take(k as int) =~= logs@);
    }
    Ok(all)
}

fn holds_tag(s: &[char], from: usize, end: usize, tag: &str) -> (found: bool)
    requires
        from <= end <= s.len(),
    ensures
        found == tag_within(s@, from as int, end as int, tag@),
{
    let mut p: usize = from;
    loop
        invariant
            from <= p <= end <= s.len(),
            forall|q: int|
                from <= q < p ==> !(q + tag@.len() <= end && #[trigger] has_tag(s@, q, tag@)),
        decreases end - p,
    {
        match read_tag(s, p, tag) {
            Some(e) => {
                if e <= end {
                    return true;
                }
            },
            None => {},
        }
        if p == end {
            return false;
        }
        p += 1;
    }
}

/// Reads the calibration from the output of a calibration run.
pub fn parse_load(data: &str) -> (r: Result<u64, CalibrationError>)
    ensures
        r == scan_load(data@),
{
    let chars = chars_of(data);
    let s = chars.as_slice();
    let mut i: usize = 0;
    while i < s.len()
        invariant
            i <= s.len(),
            s@ == data@,
            find_load_line(s@, 0) == find_load_line(s@, i as int),
        decreases s.len() - i,
    {
        let e = skip_class(s, i, CharClass::Inline);
        if holds_tag(s, i, e, "pLoad =") {
            let mut w = skip_class(s, i, CharClass::Blank);
            let mut n: usize = 0;
            while n < 4
                invariant
                    n <= 4,
                    w <= s.len(),
                    w == word_start(s@, i as int, n as nat),
                decreases 4 - n,
            {
                let after = skip_class(s, w, CharClass::Solid);
                w = skip_class(s, after, CharClass::Blank);
                n += 1;
            }
            let token_end = skip_class(s, w, CharClass::Solid);
            return match read_number(s, w, u64::MAX) {
                Some((v, d)) => match read_tag(s, d, "ns") {
                    Some(after) => {
                        proof {
                            reveal_strlit("ns");
                        }
                        if token_end == after {
                            Ok(v)
                        } else {
                            Err(CalibrationError::Malformed)
                        }
                    },
                    None => Err(CalibrationError::Malformed),
                },
                None => Err(CalibrationError::Malformed),
            };
        }
        if e >= s.len() {
            i = s.len();
        } else {
            i = e + 1;
        }
    }
    Err(CalibrationError::NotFound)
}

} // verus!
