//! The text formats of task sets, reservations and results.
//!
//! A task set is written as a line `Taskset <name>` followed by one line
//! `<wcet> <deadline> <period>` for each task, in milliseconds. A reservation is the single
//! line `Config <name> <cpus> <runtime> <period>`, the durations in milliseconds. The results
//! of a run are a line `Results`, a line of column titles, and one line for each job, in
//! microseconds.

use vstd::prelude::*;
use crate::model::{
    overrun, tasks_known, ConfigView, NamedConfig, NamedTaskset, RTTask, TasksetRunResult,
    TasksetRunResultInstance, TasksetView,
};
use crate::table::{
    lemma_scan_row_bounds, lemma_scan_row_of_text, lemma_scan_table_of_text, lemma_scan_table_shape,
    lemma_row_text_starts_with_digit, lemma_table_text_starts_with_digit, push_line, push_row, read_row, read_table, row_text,
    rows_view, scan_row, scan_table, table_rows, table_shape, table_text, Line,
};
use crate::text::{
    chars_of, has_tag, has_whitespace, in_class, lemma_span_end_is, no_whitespace,
    push_text, read_tag, skip_class, span_end, string_of, CharClass,
};
use crate::time::{Time, MAX_MILLIS};

verus! {

/// Why a text was not accepted.
#[derive(Clone, Copy, Debug, PartialEq, Eq, Structural)]
pub enum ParseError {
    /// The text does not have the form of the format.
    Malformed,
    /// A duration is longer than a [`Time`] can hold.
    OutOfRange,
    /// A task has a deadline that is not its period.
    DeadlineNotPeriod,
}

/// Why a record was not written.
#[derive(Clone, Copy, Debug, PartialEq, Eq, Structural)]
pub enum SerializeError {
    /// The name holds white space.
    WhitespaceInName,
    /// A job names a task that its task set does not hold.
    UnknownTask,
}

/// The task that a line of three numbers of milliseconds stands for.
pub open spec fn task_of_row(row: Seq<u64>) -> Result<RTTask, ParseError> {
    if row.len() != 3 {
        Err(ParseError::Malformed)
    } else if row[0] > MAX_MILLIS || row[1] > MAX_MILLIS || row[2] > MAX_MILLIS {
        Err(ParseError::OutOfRange)
    } else if row[1] != row[2] {
        Err(ParseError::DeadlineNotPeriod)
    } else {
        Ok(
            RTTask {
                wcet: Time { micros: (row[0] * 1000) as u64 },
                deadline: Time { micros: (row[1] * 1000) as u64 },
                period: Time { micros: (row[2] * 1000) as u64 },
            },
        )
    }
}

/// The tasks that the lines stand for, or what is wrong with the first line that stands for
/// none.
pub open spec fn tasks_of_rows(rows: Seq<Seq<u64>>) -> Result<Seq<RTTask>, ParseError>
    decreases rows.len(),
{
    if rows.len() == 0 {
        Ok(Seq::empty())
    } else {
        match tasks_of_rows(rows.drop_last()) {
            Err(e) => Err(e),
            Ok(tasks) => match task_of_row(rows.last()) {
                Err(e) => Err(e),
                Ok(task) => Ok(tasks.push(task)),
            },
        }
    }
}

/// What a text says as a task set: its name and its tasks.
pub open spec fn parse_taskset_text(s: Seq<char>) -> Result<TasksetView, ParseError> {
    let a = "Taskset"@.len() as int;
    let b = span_end(s, a, CharClass::Blank);
    let c = span_end(s, b, CharClass::Word);
    let d = span_end(s, c, CharClass::Gap);
    if !has_tag(s, 0, "Taskset"@) || b == a || c == b || d == c {
        Err(ParseError::Malformed)
    } else {
        match scan_table(s, d, 3, false) {
            None => Err(ParseError::Malformed),
            Some(rows) => match tasks_of_rows(rows) {
                Err(e) => Err(e),
                Ok(tasks) => Ok(TasksetView { name: s.subrange(b, c), tasks }),
            },
        }
    }
}

/// The line that a task is written as: its durations in milliseconds, each rounded to the
/// nearest whole one.
pub open spec fn task_line(task: RTTask) -> Line {
    Line {
        vals: seq![
            task.wcet.spec_millis_rounded() as u64,
            task.deadline.spec_millis_rounded() as u64,
            task.period.spec_millis_rounded() as u64,
        ],
        offset: None,
    }
}

pub open spec fn task_lines(tasks: Seq<RTTask>) -> Seq<Line> {
    Seq::new(tasks.len(), |k: int| task_line(tasks[k]))
}

/// A task set as it is written.
pub open spec fn taskset_text(taskset: TasksetView) -> Seq<char> {
    "Taskset "@ + taskset.name + seq!['\n'] + table_text(task_lines(taskset.tasks))
}

/// A failure among the first lines is the failure of the whole.
pub proof fn lemma_tasks_of_rows_prefix(rows: Seq<Seq<u64>>, k: int)
    requires
        0 <= k <= rows.len(),
        tasks_of_rows(rows.take(k)) is Err,
    ensures
        tasks_of_rows(rows) == tasks_of_rows(rows.take(k)),
    decreases rows.len() - k,
{
    if k < rows.len() {
        assert(rows.take(k + 1).drop_last() =~= rows.take(k));
        lemma_tasks_of_rows_prefix(rows, k + 1);
    } else {
        assert(rows.take(k) =~= rows);
    }
}

fn tasks_from_rows(rows: &Vec<Vec<u64>>) -> (r: Result<Vec<RTTask>, ParseError>)
    ensures
        match tasks_of_rows(rows_view(rows@)) {
            Ok(tasks) => r matches Ok(v) && v@ == tasks,
            Err(e) => r matches Err(x) && x == e,
        },
{
    let mut tasks: Vec<RTTask> = Vec::new();
    let mut k: usize = 0;
    let ghost all = rows_view(rows@);
    while k < rows.len()
        invariant
            k <= rows.len(),
            all == rows_view(rows@),
            tasks_of_rows(all.take(k as int)) == Ok::<_, ParseError>(tasks@),
        decreases rows.len() - k,
    {
        let row = &rows[k];
        proof {
            assert(all.take(k + 1).drop_last() =~= all.take(k as int));
            assert(all.take(k + 1).last() == row@);
        }
        if row.len() != 3 {
            proof {
                lemma_tasks_of_rows_prefix(all, k + 1);
            }
            return Err(ParseError::Malformed);
        }
        if row[0] > MAX_MILLIS || row[1] > MAX_MILLIS || row[2] > MAX_MILLIS {
            proof {
                lemma_tasks_of_rows_prefix(all, k + 1);
            }
            return Err(ParseError::OutOfRange);
        }
        if row[1] != row[2] {
            proof {
                lemma_tasks_of_rows_prefix(all, k + 1);
            }
            return Err(ParseError::DeadlineNotPeriod);
        }
        tasks.push(
            RTTask {
                wcet: Time { micros: row[0] * 1000 },
                deadline: Time { micros: row[1] * 1000 },
                period: Time { micros: row[2] * 1000 },
            },
        );
        k += 1;
    }
    proof {
        assert(all.take(k as int) =~= all);
    }
    Ok(tasks)
}

/// Reads a task set. A task whose deadline is not its period is refused, and so is a
/// duration that is too long to hold; what follows the last well-formed line is not read.
pub fn parse_taskset(data: &str) -> (r: Result<NamedTaskset, ParseError>)
    ensures
        match parse_taskset_text(data@) {
            Ok(taskset) => r matches Ok(t) && t@ == taskset,
            Err(e) => r matches Err(x) && x == e,
        },
{
    let chars = chars_of(data);
    let s = chars.as_slice();
    let a = match read_tag(s, 0, "Taskset") {
        Some(a) => a,
        None => {
            return Err(ParseError::Malformed);
        },
    };
    let b = skip_class(s, a, CharClass::Blank);
    let c = skip_class(s, b, CharClass::Word);
    let d = skip_class(s, c, CharClass::Gap);
    if b == a || c == b || d == c {
        return Err(ParseError::Malformed);
    }
    let rows = match read_table(s, d, 3, false) {
        Some(rows) => rows,
        None => {
            return Err(ParseError::Malformed);
        },
    };
    match tasks_from_rows(&rows) {
        Err(e) => Err(e),
        Ok(tasks) => Ok(NamedTaskset { name: string_of(s, b, c), tasks }),
    }
}

/// Writes a task set. A name that holds white space is refused.
pub fn serialize_taskset(taskset: &NamedTaskset) -> (r: Result<String, SerializeError>)
    ensures
        match r {
            Ok(text) => no_whitespace(taskset.name@) && text@ == taskset_text(taskset@),
            Err(e) => e == SerializeError::WhitespaceInName && !no_whitespace(taskset.name@),
        },
{
    if has_whitespace(taskset.name.as_str()) {
        return Err(SerializeError::WhitespaceInName);
    }
    let mut out = String::new();
    push_text(&mut out, "Taskset ");
    push_text(&mut out, taskset.name.as_str());
    out.push('\n');
    let ghost head = out@;
    let ghost lines = task_lines(taskset.tasks@);
    let mut k: usize = 0;
    proof {
        assert(head =~= "Taskset "@ + taskset.name@ + seq!['\n']);
        assert(table_text(lines.take(0)) =~= Seq::<char>::empty());
        assert(out@ =~= head + table_text(lines.take(0)));
    }
    while k < taskset.tasks.len()
        invariant
            k <= taskset.tasks.len(),
            lines == task_lines(taskset.tasks@),
            out@ == head + table_text(lines.take(k as int)),
        decreases taskset.tasks.len() - k,
    {
        let task = &taskset.tasks[k];
        let mut vals: Vec<u64> = Vec::new();
        vals.push(task.wcet.millis_rounded());
        vals.push(task.deadline.millis_rounded());
        vals.push(task.period.millis_rounded());
        push_line(&mut out, vals.as_slice(), None);
        proof {
            assert(lines.take(k + 1).drop_last() =~= lines.take(k as int));
            assert(lines.take(k + 1).last() == task_line(*task));
            assert(vals@ =~= task_line(*task).vals);
            assert(out@ =~= head + table_text(lines.take(k + 1)));
        }
        k += 1;
    }
    proof {
        assert(lines.take(k as int) =~= lines);
    }
    Ok(out)
}

/// What a text says as a reservation.
pub open spec fn parse_config_text(s: Seq<char>) -> Result<ConfigView, ParseError> {
    let a = "Config"@.len() as int;
    let b = span_end(s, a, CharClass::Blank);
    let c = span_end(s, b, CharClass::Word);
    let d = span_end(s, c, CharClass::Blank);
    if !has_tag(s, 0, "Config"@) || b == a || c == b || d == c {
        Err(ParseError::Malformed)
    } else {
        match scan_row(s, d, 3) {
            None => Err(ParseError::Malformed),
            Some((row, e)) => {
                if row[1] > MAX_MILLIS || row[2] > MAX_MILLIS {
                    Err(ParseError::OutOfRange)
                } else {
                    Ok(
                        ConfigView {
                            name: s.subrange(b, c),
                            cpus: row[0],
                            runtime: Time { micros: (row[1] * 1000) as u64 },
                            period: Time { micros: (row[2] * 1000) as u64 },
                        },
                    )
                }
            },
        }
    }
}

/// A reservation as it is written: one line without a line feed, its durations in
/// milliseconds, each rounded to the nearest whole one.
pub open spec fn config_text(config: ConfigView) -> Seq<char> {
    "Config "@ + config.name + seq![' '] + row_text(
        seq![
            config.cpus,
            config.runtime.spec_millis_rounded() as u64,
            config.period.spec_millis_rounded() as u64,
        ],
    )
}

/// Reads a reservation. A duration that is too long to hold is refused; what follows the
/// third number is not read.
pub fn parse_config(data: &str) -> (r: Result<NamedConfig, ParseError>)
    ensures
        match parse_config_text(data@) {
            Ok(config) => r matches Ok(c) && c@ == config,
            Err(e) => r matches Err(x) && x == e,
        },
{
    let chars = chars_of(data);
    let s = chars.as_slice();
    let a = match read_tag(s, 0, "Config") {
        Some(a) => a,
        None => {
            return Err(ParseError::Malformed);
        },
    };
    let b = skip_class(s, a, CharClass::Blank);
    let c = skip_class(s, b, CharClass::Word);
    let d = skip_class(s, c, CharClass::Blank);
    if b == a || c == b || d == c {
        return Err(ParseError::Malformed);
    }
    let row = match read_row(s, d, 3) {
        Some((row, _)) => row,
        None => {
            return Err(ParseError::Malformed);
        },
    };
    proof {
        lemma_scan_row_bounds(s@, d as int, 3);
    }
    if row[1] > MAX_MILLIS || row[2] > MAX_MILLIS {
        return Err(ParseError::OutOfRange);
    }
    Ok(
        NamedConfig {
            name: string_of(s, b, c),
            cpus: row[0],
            runtime: Time { micros: row[1] * 1000 },
            period: Time { micros: row[2] * 1000 },
        },
    )
}

/// Writes a reservation. A name that holds white space is refused.
pub fn serialize_config(config: &NamedConfig) -> (r: Result<String, SerializeError>)
    ensures
        match r {
            Ok(text) => no_whitespace(config.name@) && text@ == config_text(config@),
            Err(e) => e == SerializeError::WhitespaceInName && !no_whitespace(config.name@),
        },
{
    if has_whitespace(config.name.as_str()) {
        return Err(SerializeError::WhitespaceInName);
    }
    let mut out = String::new();
    push_text(&mut out, "Config ");
    push_text(&mut out, config.name.as_str());
    out.push(' ');
    let mut vals: Vec<u64> = Vec::new();
    vals.push(config.cpus);
    vals.push(config.runtime.millis_rounded());
    vals.push(config.period.millis_rounded());
    let ghost head = out@;
    push_row(&mut out, vals.as_slice());
    proof {
        assert(vals@ =~= seq![
            config.cpus,
            config.runtime.spec_millis_rounded() as u64,
            config.period.spec_millis_rounded() as u64,
        ]);
        assert(out@ =~= config_text(config@));
    }
    Ok(out)
}

/// A column title at `i`: blanks, which only the first title may do without, then the title.
pub open spec fn scan_title(s: Seq<char>, i: int, title: Seq<char>, first: bool) -> Option<int> {
    let k = span_end(s, i, CharClass::Blank);
    if (first || k > i) && has_tag(s, k, title) {
        Some(k + title.len())
    } else {
        None
    }
}

/// The title that follows the one that ended at `prev`.
pub open spec fn scan_next_title(prev: Option<int>, s: Seq<char>, title: Seq<char>) -> Option<
    int,
> {
    match prev {
        Some(j) => scan_title(s, j, title, false),
        None => None,
    }
}

/// The two heading lines of a result text. Gives the position at which the jobs start.
pub open spec fn scan_result_header(s: Seq<char>) -> Option<int> {
    let a = span_end(s, "Results"@.len() as int, CharClass::Blank);
    if !has_tag(s, 0, "Results"@) || a >= s.len() || s[a] != '\n' {
        None
    } else {
        let t1 = scan_title(s, a + 1, "Task"@, true);
        let t2 = scan_next_title(t1, s, "Job"@);
        let t3 = scan_next_title(t2, s, "AbsActivation_us"@);
        let t4 = scan_next_title(t3, s, "RelStart_us"@);
        let t5 = scan_next_title(t4, s, "RelFinish_us"@);
        let t6 = scan_next_title(t5, s, "DlOffset"@);
        match t6 {
            None => None,
            Some(j) => {
                let e = span_end(s, j, CharClass::Blank);
                if e < s.len() && s[e] == '\n' {
                    Some(e + 1)
                } else {
                    None
                }
            },
        }
    }
}

/// The job that a line of five numbers stands for, its times in microseconds.
pub open spec fn instance_of_row(row: Seq<u64>) -> TasksetRunResultInstance {
    TasksetRunResultInstance {
        task: row[0],
        instance: row[1],
        abs_activation_time: Time { micros: row[2] },
        rel_start_time: Time { micros: row[3] },
        rel_finishing_time: Time { micros: row[4] },
    }
}

pub open spec fn instances_of_rows(rows: Seq<Seq<u64>>) -> Seq<TasksetRunResultInstance> {
    Seq::new(rows.len(), |k: int| instance_of_row(rows[k]))
}

/// What a text says as the results of a run. The last column of a line, the distance of the
/// job's finish from its deadline, has to be a signed decimal and is not kept: it follows
/// from the job and its task.
pub open spec fn parse_result_text(s: Seq<char>) -> Result<
    Seq<TasksetRunResultInstance>,
    ParseError,
> {
    match scan_result_header(s) {
        None => Err(ParseError::Malformed),
        Some(i) => match scan_table(s, i, 5, true) {
            None => Err(ParseError::Malformed),
            Some(rows) => Ok(instances_of_rows(rows)),
        },
    }
}

/// The line that a job is written as: the task, the job, three times in microseconds, and by
/// how many microseconds the job finished after its deadline (negative when before).
pub open spec fn instance_line(tasks: Seq<RTTask>, job: TasksetRunResultInstance) -> Line {
    Line {
        vals: seq![
            job.task,
            job.instance,
            job.abs_activation_time.micros,
            job.rel_start_time.micros,
            job.rel_finishing_time.micros,
        ],
        offset: Some(overrun(tasks, job)),
    }
}

pub open spec fn instance_lines(
    tasks: Seq<RTTask>,
    results: Seq<TasksetRunResultInstance>,
) -> Seq<Line> {
    Seq::new(results.len(), |k: int| instance_line(tasks, results[k]))
}

/// The results of a run as they are written.
pub open spec fn result_text(
    tasks: Seq<RTTask>,
    results: Seq<TasksetRunResultInstance>,
) -> Seq<char> {
    "Results\nTask Job AbsActivation_us RelStart_us RelFinish_us DlOffset\n"@ + table_text(
        instance_lines(tasks, results),
    )
}

fn read_title(s: &[char], i: usize, title: &str, first: bool) -> (r: Option<usize>)
    requires
        i <= s.len(),
    ensures
        match scan_title(s@, i as int, title@, first) {
            Some(j) => r matches Some(e) && e == j && i <= e <= s.len(),
            None => r is None,
        },
{
    let k = skip_class(s, i, CharClass::Blank);
    if !first && k == i {
        return None;
    }
    read_tag(s, k, title)
}

fn read_next_title(prev: Option<usize>, s: &[char], title: &str) -> (r: Option<usize>)
    requires
        prev matches Some(j) ==> j <= s.len(),
    ensures
        match scan_next_title(
            match prev {
                Some(j) => Some(j as int),
                None => None,
            },
            s@,
            title@,
        ) {
            Some(j) => r matches Some(e) && e == j && e <= s.len(),
            None => r is None,
        },
{
    match prev {
        Some(j) => read_title(s, j, title, false),
        None => None,
    }
}

fn read_result_header(s: &[char]) -> (r: Option<usize>)
    ensures
        match scan_result_header(s@) {
            Some(j) => r matches Some(e) && e == j && e <= s.len(),
            None => r is None,
        },
{
    let a0 = match read_tag(s, 0, "Results") {
        Some(a) => a,
        None => {
            return None;
        },
    };
    let a = skip_class(s, a0, CharClass::Blank);
    if a >= s.len() || s[a] != '\n' {
        return None;
    }
    let t1 = read_title(s, a + 1, "Task", true);
    let t2 = read_next_title(t1, s, "Job");
    let t3 = read_next_title(t2, s, "AbsActivation_us");
    let t4 = read_next_title(t3, s, "RelStart_us");
    let t5 = read_next_title(t4, s, "RelFinish_us");
    let t6 = read_next_title(t5, s, "DlOffset");
    match t6 {
        None => None,
        Some(j) => {
            let e = skip_class(s, j, CharClass::Blank);
            if e < s.len() && s[e] == '\n' {
                Some(e + 1)
            } else {
                None
            }
        },
    }
}

/// Reads the results of a run; what follows the last well-formed line is not read.
pub fn parse_result(data: &str) -> (r: Result<Vec<TasksetRunResultInstance>, ParseError>)
    ensures
        match parse_result_text(data@) {
            Ok(results) => r matches Ok(v) && v@ == results,
            Err(e) => r matches Err(x) && x == e,
        },
{
    let chars = chars_of(data);
    let s = chars.as_slice();
    let i = match read_result_header(s) {
        Some(i) => i,
        None => {
            return Err(ParseError::Malformed);
        },
    };
    let rows = match read_table(s, i, 5, true) {
        Some(rows) => rows,
        None => {
            return Err(ParseError::Malformed);
        },
    };
    let ghost all = rows_view(rows@);
    proof {
        lemma_scan_table_shape(s@, i as int, 5, true);
    }
    let mut out: Vec<TasksetRunResultInstance> = Vec::new();
    let mut k: usize = 0;
    while k < rows.len()
        invariant
            k <= rows.len(),
            all == rows_view(rows@),
            forall|x: int| 0 <= x < all.len() ==> (#[trigger] all[x]).len() == 5,
            out@ == instances_of_rows(all.take(k as int)),
        decreases rows.len() - k,
    {
        let row = &rows[k];
        proof {
            assert(all[k as int] == row@);
        }
        out.push(
            TasksetRunResultInstance {
                task: row[0],
                instance: row[1],
                abs_activation_time: Time { micros: row[2] },
                rel_start_time: Time { micros: row[3] },
                rel_finishing_time: Time { micros: row[4] },
            },
        );
        proof {
            assert(out@ =~= instances_of_rows(all.take(k + 1)));
        }
        k += 1;
    }
    proof {
        assert(all.take(k as int) =~= all);
    }
    Ok(out)
}

/// Writes the results of a run. A job that names a task which the task set does not hold
/// is refused.
pub fn serialize_result(result: &TasksetRunResult) -> (r: Result<String, SerializeError>)
    ensures
        match r {
            Ok(text) => tasks_known(result.taskset.tasks@, result.results@) && text@
                == result_text(result.taskset.tasks@, result.results@),
            Err(e) => e == SerializeError::UnknownTask && !tasks_known(
                result.taskset.tasks@,
                result.results@,
            ),
        },
{
    let mut out = String::new();
    push_text(
        &mut out,
        "Results\nTask Job AbsActivation_us RelStart_us RelFinish_us DlOffset\n",
    );
    let tasks = &result.taskset.tasks;
    let ghost head = out@;
    let ghost lines = instance_lines(tasks@, result.results@);
    let mut k: usize = 0;
    proof {
        assert(table_text(lines.take(0)) =~= Seq::<char>::empty());
        assert(out@ =~= head + table_text(lines.take(0)));
    }
    while k < result.results.len()
        invariant
            k <= result.results.len(),
            tasks == &result.taskset.tasks,
            lines == instance_lines(tasks@, result.results@),
            out@ == head + table_text(lines.take(k as int)),
            forall|x: int| 0 <= x < k ==> (#[trigger] result.results@[x]).task < tasks.len(),
        decreases result.results.len() - k,
    {
        let job = &result.results[k];
        if job.task >= tasks.len() as u64 {
            return Err(SerializeError::UnknownTask);
        }
        let task = &tasks[job.task as usize];
        let late = job.rel_finishing_time.diff(task.deadline);
        let mut vals: Vec<u64> = Vec::new();
        vals.push(job.task);
        vals.push(job.instance);
        vals.push(job.abs_activation_time.as_micros());
        vals.push(job.rel_start_time.as_micros());
        vals.push(job.rel_finishing_time.as_micros());
        push_line(&mut out, vals.as_slice(), Some(late.as_micros()));
        proof {
            assert(lines.take(k + 1).drop_last() =~= lines.take(k as int));
            assert(lines.take(k + 1).last() == instance_line(tasks@, *job));
            assert(vals@ =~= instance_line(tasks@, *job).vals);
            assert(out@ =~= head + table_text(lines.take(k + 1)));
        }
        k += 1;
    }
    proof {
        assert(lines.take(k as int) =~= lines);
    }
    Ok(out)
}

/// Tasks of whole milliseconds whose deadline is their period are read back from their lines
/// as they were.
pub proof fn lemma_tasks_of_task_lines(tasks: Seq<RTTask>)
    requires
        forall|k: int|
            0 <= k < tasks.len() ==> (#[trigger] tasks[k]).implicit_deadline()
                && tasks[k].whole_millis(),
    ensures
        tasks_of_rows(table_rows(task_lines(tasks))) == Ok::<Seq<RTTask>, ParseError>(tasks),
    decreases tasks.len(),
{
    let rows = table_rows(task_lines(tasks));
    if tasks.len() == 0 {
        assert(tasks =~= Seq::<RTTask>::empty());
    } else {
        let init = tasks.drop_last();
        let last = tasks.last();
        assert forall|k: int| 0 <= k < init.len() implies (#[trigger] init[k]).implicit_deadline()
            && init[k].whole_millis() by {
            assert(init[k] == tasks[k]);
        }
        lemma_tasks_of_task_lines(init);
        assert(rows.drop_last() =~= table_rows(task_lines(init)));
        assert(rows.last() == task_line(last).vals);
        assert(last.implicit_deadline() && last.whole_millis());
        assert(init.push(last) =~= tasks);
    }
}

/// A task set that was written is read back as it was, if it has a name, holds a task, and
/// each of its tasks has whole milliseconds and a deadline that is its period.
pub proof fn lemma_taskset_round_trip(taskset: TasksetView)
    requires
        taskset.name.len() >= 1,
        no_whitespace(taskset.name),
        taskset.tasks.len() >= 1,
        forall|k: int|
            0 <= k < taskset.tasks.len() ==> (#[trigger] taskset.tasks[k]).implicit_deadline()
                && taskset.tasks[k].whole_millis(),
    ensures
        parse_taskset_text(taskset_text(taskset)) == Ok::<TasksetView, ParseError>(taskset),
{
    reveal_strlit("Taskset");
    reveal_strlit("Taskset ");
    let name = taskset.name;
    let lines = task_lines(taskset.tasks);
    let body = table_text(lines);
    let s = taskset_text(taskset);
    let b: int = 8;
    let c: int = 8 + name.len() as int;
    let d: int = c + 1;
    lemma_table_text_starts_with_digit(lines);
    assert(s.len() == 9 + name.len() + body.len());
    assert(forall|x: int| 0 <= x < 8 ==> s[x] == "Taskset "@[x]);
    assert(forall|x: int| 0 <= x < name.len() ==> s[8 + x] == #[trigger] name[x]);
    assert(s[c] == '\n');
    assert(forall|x: int| 0 <= x < body.len() ==> s[d + x] == #[trigger] body[x]);
    assert(s.subrange(0, 7) =~= "Taskset"@);
    assert(s[8] == name[0]);
    lemma_span_end_is(s, 7, b, CharClass::Blank);
    assert forall|x: int| b <= x < c implies in_class(#[trigger] s[x], CharClass::Word) by {
        assert(s[8 + (x - 8)] == name[x - 8]);
    }
    lemma_span_end_is(s, b, c, CharClass::Word);
    assert(s[d + 0] == body[0]);
    lemma_span_end_is(s, c, d, CharClass::Gap);
    assert(s.subrange(d, s.len() as int) =~= body);
    assert(table_shape(lines, 3, false));
    lemma_scan_table_of_text(s, d, lines, 3, false);
    lemma_tasks_of_task_lines(taskset.tasks);
    assert(s.subrange(b, c) =~= name);
}

/// Every task of a task set that was read has a deadline that is its period.
pub proof fn lemma_tasks_of_rows_implicit(rows: Seq<Seq<u64>>)
    ensures
        match tasks_of_rows(rows) {
            Ok(tasks) => tasks.len() == rows.len() && forall|k: int|
                0 <= k < tasks.len() ==> (#[trigger] tasks[k]).implicit_deadline(),
            Err(_) => true,
        },
    decreases rows.len(),
{
    if rows.len() > 0 {
        lemma_tasks_of_rows_implicit(rows.drop_last());
    }
}

/// No text is read as a task set that holds a task whose deadline is not its period, and
/// every task set that is read holds a task.
pub proof fn lemma_parsed_taskset_is_implicit(s: Seq<char>)
    ensures
        match parse_taskset_text(s) {
            Ok(taskset) => taskset.tasks.len() >= 1 && forall|k: int|
                0 <= k < taskset.tasks.len() ==> (#[trigger] taskset.tasks[k]).implicit_deadline(),
            Err(_) => true,
        },
{
    let d = span_end(
        s,
        span_end(s, span_end(s, "Taskset"@.len() as int, CharClass::Blank), CharClass::Word),
        CharClass::Gap,
    );
    match scan_table(s, d, 3, false) {
        Some(rows) => {
            lemma_tasks_of_rows_implicit(rows);
        },
        None => {},
    }
}

/// A reservation that was written is read back as it was, if it has a name and its durations
/// are whole milliseconds.
pub proof fn lemma_config_round_trip(config: ConfigView)
    requires
        config.name.len() >= 1,
        no_whitespace(config.name),
        config.runtime.spec_is_whole_millis(),
        config.period.spec_is_whole_millis(),
    ensures
        parse_config_text(config_text(config)) == Ok::<ConfigView, ParseError>(config),
{
    reveal_strlit("Config");
    reveal_strlit("Config ");
    let name = config.name;
    let vals = seq![
        config.cpus,
        config.runtime.spec_millis_rounded() as u64,
        config.period.spec_millis_rounded() as u64,
    ];
    let row = row_text(vals);
    let s = config_text(config);
    let b: int = 7;
    let c: int = 7 + name.len() as int;
    let d: int = c + 1;
    lemma_row_text_starts_with_digit(vals);
    assert(s.len() == 8 + name.len() + row.len());
    assert(forall|x: int| 0 <= x < 7 ==> s[x] == "Config "@[x]);
    assert(forall|x: int| 0 <= x < name.len() ==> s[7 + x] == #[trigger] name[x]);
    assert(s[c] == ' ');
    assert(forall|x: int| 0 <= x < row.len() ==> s[d + x] == #[trigger] row[x]);
    assert(s.subrange(0, 6) =~= "Config"@);
    assert(s[7] == name[0]);
    lemma_span_end_is(s, 6, b, CharClass::Blank);
    assert forall|x: int| b <= x < c implies in_class(#[trigger] s[x], CharClass::Word) by {
        assert(s[7 + (x - 7)] == name[x - 7]);
    }
    lemma_span_end_is(s, b, c, CharClass::Word);
    assert(s[d + 0] == row[0]);
    lemma_span_end_is(s, c, d, CharClass::Blank);
    assert(s.subrange(d, d + row.len()) =~= row);
    lemma_scan_row_of_text(s, d, vals);
    assert(s.subrange(b, c) =~= name);
}

/// The two heading lines, as they are written, are read as such.
pub proof fn lemma_result_header(s: Seq<char>)
    requires
        has_tag(s, 0, "Results\nTask Job AbsActivation_us RelStart_us RelFinish_us DlOffset\n"@),
    ensures
        scan_result_header(s) == Some(68int),
        "Results\nTask Job AbsActivation_us RelStart_us RelFinish_us DlOffset\n"@.len() == 68,
{
    reveal_strlit("Results\nTask Job AbsActivation_us RelStart_us RelFinish_us DlOffset\n");
    reveal_strlit("Results");
    reveal_strlit("Task");
    reveal_strlit("Job");
    reveal_strlit("AbsActivation_us");
    reveal_strlit("RelStart_us");
    reveal_strlit("RelFinish_us");
    reveal_strlit("DlOffset");
    let h = "Results\nTask Job AbsActivation_us RelStart_us RelFinish_us DlOffset\n"@;
    assert(forall|x: int| 0 <= x < 68 ==> s[x] == #[trigger] s.subrange(0, 68)[x]);
    assert(forall|x: int| 0 <= x < 68 ==> s[x] == h[x]);
    assert(s.subrange(0, 7) =~= "Results"@);
    lemma_span_end_is(s, 7, 7, CharClass::Blank);
    lemma_span_end_is(s, 8, 8, CharClass::Blank);
    assert(s.subrange(8, 12) =~= "Task"@);
    assert(scan_title(s, 8, "Task"@, true) == Some(12int));
    lemma_span_end_is(s, 12, 13, CharClass::Blank);
    assert(s.subrange(13, 16) =~= "Job"@);
    assert(scan_title(s, 12, "Job"@, false) == Some(16int));
    lemma_span_end_is(s, 16, 17, CharClass::Blank);
    assert(s.subrange(17, 33) =~= "AbsActivation_us"@);
    assert(scan_title(s, 16, "AbsActivation_us"@, false) == Some(33int));
    lemma_span_end_is(s, 33, 34, CharClass::Blank);
    assert(s.subrange(34, 45) =~= "RelStart_us"@);
    assert(scan_title(s, 33, "RelStart_us"@, false) == Some(45int));
    lemma_span_end_is(s, 45, 46, CharClass::Blank);
    assert(s.subrange(46, 58) =~= "RelFinish_us"@);
    assert(scan_title(s, 45, "RelFinish_us"@, false) == Some(58int));
    lemma_span_end_is(s, 58, 59, CharClass::Blank);
    assert(s.subrange(59, 67) =~= "DlOffset"@);
    assert(scan_title(s, 58, "DlOffset"@, false) == Some(67int));
    lemma_span_end_is(s, 67, 67, CharClass::Blank);
}

/// The jobs are read back from their lines as they were.
pub proof fn lemma_instances_of_instance_lines(
    tasks: Seq<RTTask>,
    results: Seq<TasksetRunResultInstance>,
)
    ensures
        instances_of_rows(table_rows(instance_lines(tasks, results))) == results,
        table_shape(instance_lines(tasks, results), 5, true),
{
    let lines = instance_lines(tasks, results);
    let rows = table_rows(lines);
    let back = instances_of_rows(rows);
    assert(back.len() == results.len());
    assert forall|k: int| 0 <= k < results.len() implies back[k] == results[k] by {
        assert(lines[k] == instance_line(tasks, results[k]));
        assert(rows[k] == lines[k].vals);
        assert(back[k] == instance_of_row(rows[k]));
    }
    assert(back =~= results);
    assert forall|k: int| 0 <= k < lines.len() implies (#[trigger] lines[k]).vals.len() == 5 && (
    lines[k].offset is Some) == true by {
        assert(lines[k] == instance_line(tasks, results[k]));
    }
}

/// The results of a run that were written are read back as they were, if there is a job.
pub proof fn lemma_result_round_trip(tasks: Seq<RTTask>, results: Seq<TasksetRunResultInstance>)
    requires
        results.len() >= 1,
    ensures
        parse_result_text(result_text(tasks, results)) == Ok::<
            Seq<TasksetRunResultInstance>,
            ParseError,
        >(results),
{
    let h = "Results\nTask Job AbsActivation_us RelStart_us RelFinish_us DlOffset\n"@;
    let lines = instance_lines(tasks, results);
    let body = table_text(lines);
    let s = result_text(tasks, results);
    assert(s == h + body);
    assert(has_tag(s, 0, h)) by {
        assert(s.subrange(0, h.len() as int) =~= h);
    }
    lemma_result_header(s);
    assert(s.subrange(68, s.len() as int) == body) by {
        assert(s.subrange(68, s.len() as int) =~= body);
    }
    lemma_instances_of_instance_lines(tasks, results);
    assert(scan_table(s, 68, 5, true) == Some(table_rows(lines))) by {
        lemma_scan_table_of_text(s, 68, lines, 5, true);
    }
}

} // verus!
