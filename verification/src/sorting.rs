//! Tasks in the order of their periods.

use vstd::prelude::*;
use crate::model::{sorted_by_period, RTTask};

verus! {

/// Where `task` goes into `sorted`: behind the last task whose period is no longer than its
/// own.
pub open spec fn insert_point(sorted: Seq<RTTask>, task: RTTask) -> int
    decreases sorted.len(),
{
    if sorted.len() == 0 {
        0
    } else if sorted.last().period.micros <= task.period.micros {
        sorted.len() as int
    } else {
        insert_point(sorted.drop_last(), task)
    }
}

/// The tasks by rising period; tasks of one period keep the order in which they came.
pub open spec fn sorted_tasks(tasks: Seq<RTTask>) -> Seq<RTTask>
    decreases tasks.len(),
{
    if tasks.len() == 0 {
        Seq::empty()
    } else {
        let before = sorted_tasks(tasks.drop_last());
        before.insert(insert_point(before, tasks.last()), tasks.last())
    }
}

pub proof fn lemma_insert_point(sorted: Seq<RTTask>, task: RTTask)
    requires
        sorted_by_period(sorted),
    ensures
        0 <= insert_point(sorted, task) <= sorted.len(),
        forall|k: int|
            0 <= k < insert_point(sorted, task) ==> (#[trigger] sorted[k]).period.micros
                <= task.period.micros,
        forall|k: int|
            insert_point(sorted, task) <= k < sorted.len() ==> (#[trigger] sorted[k]).period.micros
                > task.period.micros,
    decreases sorted.len(),
{
    if sorted.len() > 0 {
        let init = sorted.drop_last();
        assert forall|i: int, j: int| 0 <= i <= j < init.len() implies (#[trigger] init[i]).period.micros
            <= (#[trigger] init[j]).period.micros by {
            assert(init[i] == sorted[i] && init[j] == sorted[j]);
        }
        if sorted.last().period.micros <= task.period.micros {
            assert forall|k: int| 0 <= k < sorted.len() implies (#[trigger] sorted[k]).period.micros
                <= task.period.micros by {
                assert(sorted[k].period.micros <= sorted[sorted.len() - 1].period.micros);
            }
        } else {
            lemma_insert_point(init, task);
            assert forall|k: int| 0 <= k < insert_point(sorted, task) implies (
            #[trigger] sorted[k]).period.micros <= task.period.micros by {
                assert(sorted[k] == init[k]);
            }
            assert forall|k: int| insert_point(sorted, task) <= k < sorted.len() implies (
            #[trigger] sorted[k]).period.micros > task.period.micros by {
                if k < init.len() {
                    assert(sorted[k] == init[k]);
                }
            }
        }
    }
}

/// The periods of the sorted tasks never go down, and the sorted tasks are the tasks that
/// went in, each as often as it went in.
pub proof fn lemma_sorted_tasks(tasks: Seq<RTTask>)
    ensures
        sorted_by_period(sorted_tasks(tasks)),
        sorted_tasks(tasks).len() == tasks.len(),
        sorted_tasks(tasks).to_multiset() == tasks.to_multiset(),
    decreases tasks.len(),
{
    if tasks.len() == 0 {
        assert(sorted_tasks(tasks) =~= tasks);
    } else {
        let init = tasks.drop_last();
        let last = tasks.last();
        let before = sorted_tasks(init);
        lemma_sorted_tasks(init);
        lemma_insert_point(before, last);
        let p = insert_point(before, last);
        let after = before.insert(p, last);
        assert forall|i: int, j: int| 0 <= i <= j < after.len() implies (#[trigger] after[i]).period.micros
            <= (#[trigger] after[j]).period.micros by {
            if j < p {
                assert(after[i] == before[i] && after[j] == before[j]);
            } else if i > p {
                assert(after[i] == before[i - 1] && after[j] == before[j - 1]);
            } else if i == p && j > p {
                assert(after[j] == before[j - 1]);
            } else if i < p && j == p {
                assert(after[i] == before[i]);
            } else if i < p && j > p {
                assert(after[i] == before[i] && after[j] == before[j - 1]);
            }
        }
        vstd::seq_lib::to_multiset_insert(before, p, last);
        assert(tasks =~= init.push(last));
        vstd::seq_lib::to_multiset_build(init, last);
    }
}

/// Puts the tasks in the order of their periods; tasks of one period keep their order.
pub fn sort_by_period(tasks: &Vec<RTTask>) -> (out: Vec<RTTask>)
    ensures
        out@ == sorted_tasks(tasks@),
        sorted_by_period(out@),
        out@.to_multiset() == tasks@.to_multiset(),
{
    let mut out: Vec<RTTask> = Vec::new();
    let mut k: usize = 0;
    proof {
        assert(sorted_tasks(tasks@.take(0)) =~= Seq::<RTTask>::empty());
    }
    while k < tasks.len()
        invariant
            k <= tasks.len(),
            out@ == sorted_tasks(tasks@.take(k as int)),
            out@.len() == k,
        decreases tasks.len() - k,
    {
        let task = tasks[k];
        proof {
            assert(tasks@.take(k + 1).drop_last() =~= tasks@.take(k as int));
            assert(tasks@.take(k + 1).last() == task);
            lemma_sorted_tasks(tasks@.take(k as int));
        }
        let mut p: usize = out.len();
        proof {
            assert(out@.take(p as int) =~= out@);
        }
        while p > 0 && out[p - 1].period.micros > task.period.micros
            invariant
                p <= out.len(),
                insert_point(out@, task) == insert_point(out@.take(p as int), task),
            decreases p,
        {
            proof {
                assert(out@.take(p as int).drop_last() =~= out@.take(p - 1));
            }
            p -= 1;
        }
        proof {
            if p > 0 {
                assert(out@.take(p as int).last() == out@[p - 1]);
            }
            assert(insert_point(out@.take(p as int), task) == p);
        }
        out.insert(p, task);
        k += 1;
    }
    proof {
        assert(tasks@.take(k as int) =~= tasks@);
        lemma_sorted_tasks(tasks@);
    }
    out
}

} // verus!
