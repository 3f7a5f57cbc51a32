//! The `periodic_thread` workload: its arguments, its report and its calibration line.

use vstd::prelude::*;
use crate::codec::{instance_of_row, ParseError};
use crate::model::{sorted_by_period, RTTask, TasksetRunResultInstance};
use crate::table::{lemma_scan_line_bounds, read_line, scan_line};
use crate::text::{
    chars_of, decimal_digits, exec_is_whitespace, has_tag, is_whitespace, lemma_span_end,
    push_decimal, read_number, read_tag, scan_number, skip_class, span_end, CharClass,
};
use crate::time::Time;

verus! {

/// What one start of the workload is given.
#[derive(Clone, Debug, PartialEq, Eq)]
pub struct PeriodicThreadData {
    /// The priority of the first task; each further task has one less.
    pub start_priority: u64,
    /// The calibration of the busy loop, where it is known.
    pub cpu_speed: Option<u64>,
    /// The tasks, by rising period.
    pub tasks: Vec<RTTask>,
    /// How many jobs of each task are run.
    pub num_instances_per_job: u64,
    /// Further arguments, handed on as they are.
    pub extra_args: Vec<String>,
    /// The file that takes the report.
    pub out_file: String,
}

/// Why the workload cannot be started.
#[derive(Clone, Copy, Debug, PartialEq, Eq, Structural)]
pub enum WorkloadError {
    /// There is no task.
    NoTasks,
    /// The tasks do not come by rising period.
    NotOrderedByPeriod,
}

/// Why no calibration was read.
#[derive(Clone, Copy, Debug, PartialEq, Eq, Structural)]
pub enum CalibrationError {
    /// No line of the report gives the calibration.
    NotFound,
    /// The line that should give it holds no number.
    Malformed,
}

/// How many tasks get a priority: priorities go down from `start_priority` to 1.
pub open spec fn tasks_started(start_priority: u64, tasks: Seq<RTTask>) -> nat {
    if tasks.len() <= start_priority {
        tasks.len()
    } else {
        start_priority as nat
    }
}

/// The arguments of the first `count` tasks: `-C <wcet> -p <period> -P <priority>` for
/// each, the durations in microseconds.
pub open spec fn task_args(start_priority: u64, tasks: Seq<RTTask>, count: nat) -> Seq<Seq<char>>
    decreases count,
{
    if count == 0 {
        Seq::empty()
    } else {
        let k = (count - 1) as int;
        task_args(start_priority, tasks, (count - 1) as nat) + seq![
            "-C"@,
            decimal_digits(tasks[k].wcet.micros as nat),
            "-p"@,
            decimal_digits(tasks[k].period.micros as nat),
            "-P"@,
            decimal_digits((start_priority - k) as nat),
        ]
    }
}

/// The arguments that the workload is started with.
pub open spec fn periodic_thread_args(
    start_priority: u64,
    cpu_speed: Option<u64>,
    tasks: Seq<RTTask>,
    num_instances_per_job: u64,
    extra_args: Seq<Seq<char>>,
) -> Seq<Seq<char>> {
    let started = tasks_started(start_priority, tasks);
    task_args(start_priority, tasks, started) + (match cpu_speed {
        Some(speed) => seq!["-R"@, decimal_digits(speed as nat)],
        None => Seq::empty(),
    }) + extra_args + seq![
        "-N"@,
        decimal_digits(num_instances_per_job as nat),
        "-n"@,
        decimal_digits(started),
    ]
}

/// The texts that `args` hold.
pub open spec fn args_view(args: Seq<String>) -> Seq<Seq<char>> {
    Seq::new(args.len(), |k: int| args[k]@)
}

/// The end of the line that holds position `i`: the next line feed, or the end of the text.
pub open spec fn line_end(s: Seq<char>, i: int) -> int {
    span_end(s, i, CharClass::Inline)
}

/// The jobs that a report lists from position `i` on. Blank lines and lines that begin with
/// `#` say nothing; every other line has to give a job: five numbers, a signed decimal,
/// and whatever follows on the line.
pub open spec fn scan_report(s: Seq<char>, i: int) -> Result<Seq<TasksetRunResultInstance>, ParseError>
    decreases s.len() - i,
{
    let a = span_end(s, i, CharClass::Gap);
    if i < 0 || a < i || a >= s.len() {
        Ok(Seq::empty())
    } else if s[a] == '#' {
        let e = line_end(s, a);
        if i < e <= s.len() {
            scan_report(s, e)
        } else {
            Ok(Seq::empty())
        }
    } else {
        match scan_line(s, a, 5, true) {
            None => Err(ParseError::Malformed),
            Some((row, j)) => {
                let e = line_end(s, j);
                if i < e <= s.len() {
                    match scan_report(s, e) {
                        Err(err) => Err(err),
                        Ok(rest) => Ok(seq![instance_of_row(row)] + rest),
                    }
                } else {
                    Ok(seq![instance_of_row(row)])
                }
            },
        }
    }
}

/// The first line from position `i` on that begins with `#Cycles:`, if there is one.
pub open spec fn find_cycles_line(s: Seq<char>, i: int) -> Option<int>
    decreases s.len() - i,
{
    if i < 0 || i >= s.len() {
        None
    } else if has_tag(s, i, "#Cycles:"@) {
        Some(i)
    } else {
        let e = line_end(s, i);
        if i <= e < s.len() {
            find_cycles_line(s, e + 1)
        } else {
            None
        }
    }
}

/// The calibration that a report gives: the number that follows `#Cycles:` and blanks on
/// the first line that begins so.
pub open spec fn scan_cycles(s: Seq<char>) -> Result<u64, CalibrationError> {
    match find_cycles_line(s, 0) {
        None => Err(CalibrationError::NotFound),
        Some(p) => {
            let a = p + "#Cycles:"@.len();
            let b = span_end(s, a, CharClass::Blank);
            match scan_number(s, b, u64::MAX as nat) {
                Some((v, e)) => if b > a && (e >= s.len() || is_whitespace(s[e])) {
                    Ok(v as u64)
                } else {
                    Err(CalibrationError::Malformed)
                },
                None => Err(CalibrationError::Malformed),
            }
        },
    }
}

fn number_text(n: u64) -> (text: String)
    ensures
        text@ == decimal_digits(n as nat),
{
    let mut text = String::new();
    push_decimal(&mut text, n as u128);
    proof {
        assert(text@ =~= decimal_digits(n as nat));
    }
    text
}

/// Whether the periods never go down from one task to the next.
pub fn ordered_by_period(tasks: &Vec<RTTask>) -> (ok: bool)
    ensures
        ok == sorted_by_period(tasks@),
{
    let mut k: usize = 1;
    while k < tasks.len()
        invariant
            1 <= k,
            forall|i: int, j: int|
                0 <= i <= j < k && j < tasks@.len() ==> (#[trigger] tasks@[i]).period.micros <= (
                #[trigger] tasks@[j]).period.micros,
        decreases tasks.len() - k,
    {
        if tasks[k - 1].period.micros > tasks[k].period.micros {
            return false;
        }
        proof {
            assert forall|i: int, j: int| 0 <= i <= j < k + 1 && j < tasks@.len() implies (
            #[trigger] tasks@[i]).period.micros <= (#[trigger] tasks@[j]).period.micros by {
                if j == k && i < k {
                    assert(tasks@[i].period.micros <= tasks@[k - 1].period.micros);
                }
            }
        }
        k += 1;
    }
    true
}

/// The arguments that the workload is started with: for each task its execution time, its
/// period and its priority, the calibration where it is known, the further arguments, the
/// number of jobs and the number of tasks. Tasks beyond the last priority are left out.
pub fn run_periodic_thread_args(data: &PeriodicThreadData) -> (r: Result<Vec<String>, WorkloadError>)
    ensures
        match r {
            Ok(args) => data.tasks@.len() > 0 && sorted_by_period(data.tasks@) && args_view(args@)
                == periodic_thread_args(
                data.start_priority,
                data.cpu_speed,
                data.tasks@,
                data.num_instances_per_job,
                args_view(data.extra_args@),
            ),
            Err(e) => if data.tasks@.len() == 0 {
                e == WorkloadError::NoTasks
            } else {
                e == WorkloadError::NotOrderedByPeriod && !sorted_by_period(data.tasks@)
            },
        },
{
    if data.tasks.len() == 0 {
        return Err(WorkloadError::NoTasks);
    }
    if !ordered_by_period(&data.tasks) {
        return Err(WorkloadError::NotOrderedByPeriod);
    }
    let started: usize = if data.tasks.len() as u64 <= data.start_priority {
        data.tasks.len()
    } else {
        data.start_priority as usize
    };
    let mut args: Vec<String> = Vec::new();
    let mut k: usize = 0;
    proof {
        assert(args_view(args@) =~= task_args(data.start_priority, data.tasks@, 0));
    }
    while k < started
        invariant
            k <= started,
            started == tasks_started(data.start_priority, data.tasks@),
            args_view(args@) == task_args(data.start_priority, data.tasks@, k as nat),
        decreases started - k,
    {
        let task = &data.tasks[k];
        let ghost before = args_view(args@);
        args.push("-C".to_owned());
        args.push(number_text(task.wcet.micros));
        args.push("-p".to_owned());
        args.push(number_text(task.period.micros));
        args.push("-P".to_owned());
        args.push(number_text(data.start_priority - k as u64));
        proof {
            assert(args_view(args@) =~= before + seq![
                "-C"@,
                decimal_digits(task.wcet.micros as nat),
                "-p"@,
                decimal_digits(task.period.micros as nat),
                "-P"@,
                decimal_digits((data.start_priority - k) as nat),
            ]);
        }
        k += 1;
    }
    let ghost head = args_view(args@);
    match data.cpu_speed {
        Some(speed) => {
            args.push("-R".to_owned());
            args.push(number_text(speed));
        },
        None => {},
    }
    let ghost with_speed = args_view(args@);
    proof {
        assert(with_speed =~= head + (match data.cpu_speed {
            Some(speed) => seq!["-R"@, decimal_digits(speed as nat)],
            None => Seq::empty(),
        }));
    }
    let mut x: usize = 0;
    while x < data.extra_args.len()
        invariant
            x <= data.extra_args.len(),
            args_view(args@) == with_speed + args_view(data.extra_args@).take(x as int),
        decreases data.extra_args.len() - x,
    {
        let ghost before = args_view(args@);
        args.push(data.extra_args[x].clone());
        proof {
            assert(args_view(args@) =~= before.push(data.extra_args@[x as int]@));
            assert(args_view(data.extra_args@).take(x + 1) =~= args_view(data.extra_args@).take(
                x as int,
            ).push(data.extra_args@[x as int]@));
        }
        x += 1;
    }
    let ghost with_extra = args_view(args@);
    proof {
        assert(args_view(data.extra_args@).take(x as int) =~= args_view(data.extra_args@));
    }
    args.push("-N".to_owned());
    args.push(number_text(data.num_instances_per_job));
    args.push("-n".to_owned());
    args.push(number_text(started as u64));
    proof {
        assert(args_view(args@) =~= with_extra + seq![
            "-N"@,
            decimal_digits(data.num_instances_per_job as nat),
            "-n"@,
            decimal_digits(started as nat),
        ]);
    }
    Ok(args)
}

/// Reads the report of the workload: one job for each line that is neither blank nor a
/// remark. The last column of a line is not kept.
pub fn parse_taskset_results(data: &str) -> (r: Result<Vec<TasksetRunResultInstance>, ParseError>)
    ensures
        match scan_report(data@, 0) {
            Ok(jobs) => r matches Ok(v) && v@ == jobs,
            Err(e) => r matches Err(x) && x == e,
        },
{
    let chars = chars_of(data);
    let s = chars.as_slice();
    let mut jobs: Vec<TasksetRunResultInstance> = Vec::new();
    let mut i: usize = 0;
    loop
        invariant
            i <= s.len(),
            s@ == data@,
            match scan_report(s@, i as int) {
                Ok(rest) => scan_report(s@, 0) == Ok::<Seq<TasksetRunResultInstance>, ParseError>(
                    jobs@ + rest,
                ),
                Err(e) => scan_report(s@, 0) == Err::<Seq<TasksetRunResultInstance>, ParseError>(e),
            },
        decreases s.len() - i,
    {
        let a = skip_class(s, i, CharClass::Gap);
        if a >= s.len() {
            proof {
                assert(jobs@ + Seq::<TasksetRunResultInstance>::empty() =~= jobs@);
            }
            return Ok(jobs);
        }
        if s[a] == '#' {
            let e = skip_class(s, a, CharClass::Inline);
            proof {
                assert(span_end(s@, a as int, CharClass::Inline) == span_end(
                    s@,
                    a + 1,
                    CharClass::Inline,
                ));
                lemma_span_end(s@, a + 1, CharClass::Inline);
            }
            i = e;
        } else {
            match read_line(s, a, 5, true) {
                None => {
                    return Err(ParseError::Malformed);
                },
                Some((row, j)) => {
                    proof {
                        lemma_scan_line_bounds(s@, a as int, 5, true);
                        crate::table::lemma_scan_line_advances(s@, a as int, 5, true);
                    }
                    let e = skip_class(s, j, CharClass::Inline);
                    let ghost before = jobs@;
                    jobs.push(
                        TasksetRunResultInstance {
                            task: row[0],
                            instance: row[1],
                            abs_activation_time: Time { micros: row[2] },
                            rel_start_time: Time { micros: row[3] },
                            rel_finishing_time: Time { micros: row[4] },
                        },
                    );
                    proof {
                        match scan_report(s@, e as int) {
                            Ok(rest) => {
                                assert(before + (seq![instance_of_row(row@)] + rest) =~= jobs@ + rest);
                            },
                            Err(_) => {},
                        }
                    }
                    i = e;
                },
            }
        }
    }
}

/// Reads the calibration from the report of a calibration run.
pub fn parse_cycles(data: &str) -> (r: Result<u64, CalibrationError>)
    ensures
        r == scan_cycles(data@),
{
    let chars = chars_of(data);
    let s = chars.as_slice();
    let mut i: usize = 0;
    while i < s.len()
        invariant
            i <= s.len(),
            s@ == data@,
            find_cycles_line(s@, 0) == find_cycles_line(s@, i as int),
        decreases s.len() - i,
    {
        match read_tag(s, i, "#Cycles:") {
            Some(a) => {
                let b = skip_class(s, a, CharClass::Blank);
                return match read_number(s, b, u64::MAX) {
                    Some((v, e)) => {
                        if b > a && (e >= s.len() || exec_is_whitespace(s[e])) {
                            Ok(v)
                        } else {
                            Err(CalibrationError::Malformed)
                        }
                    },
                    None => Err(CalibrationError::Malformed),
                };
            },
            None => {},
        }
        let e = skip_class(s, i, CharClass::Inline);
        if e >= s.len() {
            i = s.len();
        } else {
            i = e + 1;
        }
    }
    Err(CalibrationError::NotFound)
}

} // verus!
