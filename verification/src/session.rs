//! The steps around one start of a workload, and the promise that whatever a run took
//! from the machine is given back.
//!
//! The caller carries out each step on the machine and reports whether it worked; the
//! session says which step is next. Once the control group exists, no failure keeps the
//! session from undoing what was done: the processor set is widened, the policy lowered,
//! the process moved back to the root group and the control group destroyed.

use vstd::prelude::*;
use crate::model::{ConfigView, NamedConfig};

verus! {

/// One step of a run.
#[derive(Clone, Copy, Debug, PartialEq, Eq, Structural)]
pub enum Step {
    /// Delete what an earlier run left of the workload's output.
    RemoveStaleOutput,
    /// Create the control group with the budget and the period of the reservation.
    CreateCgroup,
    /// Move this process into the control group.
    EnterCgroup,
    /// Give this process the round-robin policy at the highest priority.
    RaisePolicy,
    /// Restrict this process to as many processors as the reservation spans.
    NarrowCpuset,
    /// Start the workload, which inherits group, policy and processors.
    Spawn,
    /// Wait for the workload to end.
    Wait,
    /// Allow this process all processors again.
    WidenCpuset,
    /// Give this process the ordinary policy again.
    LowerPolicy,
    /// Move this process back into the root group.
    LeaveCgroup,
    /// Destroy the control group.
    DestroyCgroup,
}

/// A scheduling policy of a process.
#[derive(Clone, Copy, Debug, PartialEq, Eq, Structural)]
pub enum SchedPolicy {
    /// Round robin at a priority from 1 to 99.
    RR(u8),
    /// First in, first out at a priority from 1 to 99.
    FIFO(u8),
    /// The ordinary time-sharing policy.
    Other,
}

/// Which processors a process may run on.
#[derive(Clone, Copy, Debug, PartialEq, Eq, Structural)]
pub enum CpuChoice {
    /// All processors of the machine.
    All,
    /// Some set of that many processors.
    AnySubset(u64),
}

/// What a step does to the machine, with the numbers that it needs.
#[derive(Clone, Copy, Debug, PartialEq, Eq, Structural)]
pub enum Action {
    /// Delete the stale output of the workload.
    RemoveStaleOutput,
    /// Create the control group of the batch with this budget and period, in microseconds.
    CreateCgroup { runtime_us: u64, period_us: u64 },
    /// Move this process into the control group of the batch.
    EnterCgroup,
    /// Move this process into the root control group `.`.
    EnterRootCgroup,
    /// Give this process the policy.
    SetScheduler(SchedPolicy),
    /// Restrict this process to the processors.
    SetCpuset(CpuChoice),
    /// Start the workload.
    Spawn,
    /// Wait for the workload.
    Wait,
    /// Destroy the control group of the batch.
    DestroyCgroup,
}

/// What of the machine a run has changed.
pub struct Machine {
    /// The control group of the run exists.
    pub cgroup_exists: bool,
    /// This process is in that group.
    pub in_cgroup: bool,
    /// This process has a real-time policy.
    pub policy_raised: bool,
    /// This process is restricted to some of the processors.
    pub cpuset_narrowed: bool,
}

/// The steps of a run, between two of them.
#[derive(Clone, Copy, Debug, PartialEq, Eq, Structural)]
pub struct RunSession {
    /// The step that the caller is carrying out, if the run is not over.
    pub current: Option<Step>,
    /// Some step has failed.
    pub failed: bool,
}

/// The machine as a run finds it and has to leave it.
pub open spec fn clean() -> Machine {
    Machine { cgroup_exists: false, in_cgroup: false, policy_raised: false, cpuset_narrowed: false }
}

/// The step undoes something.
pub open spec fn is_teardown(step: Step) -> bool {
    step == Step::WidenCpuset || step == Step::LowerPolicy || step == Step::LeaveCgroup || step
        == Step::DestroyCgroup
}

/// The step that follows `step`, which worked or did not. A step that fails before the
/// control group exists ends the run; one that fails later leads to the undoing; a step of
/// the undoing is followed by the next of them whether it worked or not.
pub open spec fn next_step(step: Step, ok: bool) -> Option<Step> {
    match step {
        Step::RemoveStaleOutput => if ok {
            Some(Step::CreateCgroup)
        } else {
            None
        },
        Step::CreateCgroup => if ok {
            Some(Step::EnterCgroup)
        } else {
            None
        },
        Step::EnterCgroup => if ok {
            Some(Step::RaisePolicy)
        } else {
            Some(Step::WidenCpuset)
        },
        Step::RaisePolicy => if ok {
            Some(Step::NarrowCpuset)
        } else {
            Some(Step::WidenCpuset)
        },
        Step::NarrowCpuset => if ok {
            Some(Step::Spawn)
        } else {
            Some(Step::WidenCpuset)
        },
        Step::Spawn => if ok {
            Some(Step::Wait)
        } else {
            Some(Step::WidenCpuset)
        },
        Step::Wait => Some(Step::WidenCpuset),
        Step::WidenCpuset => Some(Step::LowerPolicy),
        Step::LowerPolicy => Some(Step::LeaveCgroup),
        Step::LeaveCgroup => Some(Step::DestroyCgroup),
        Step::DestroyCgroup => None,
    }
}

/// The machine after `step`: a step that worked has its effect, one that failed has none.
pub open spec fn apply(m: Machine, step: Step, ok: bool) -> Machine {
    if !ok {
        m
    } else {
        match step {
            Step::CreateCgroup => Machine { cgroup_exists: true, ..m },
            Step::EnterCgroup => Machine { in_cgroup: true, ..m },
            Step::RaisePolicy => Machine { policy_raised: true, ..m },
            Step::NarrowCpuset => Machine { cpuset_narrowed: true, ..m },
            Step::WidenCpuset => Machine { cpuset_narrowed: false, ..m },
            Step::LowerPolicy => Machine { policy_raised: false, ..m },
            Step::LeaveCgroup => Machine { in_cgroup: false, ..m },
            Step::DestroyCgroup => Machine { cgroup_exists: false, ..m },
            _ => m,
        }
    }
}

/// The outcomes are those of a whole run that starts with `step`: one for each step, up to
/// the step that nothing follows.
pub open spec fn completes(step: Step, outcomes: Seq<bool>) -> bool
    decreases outcomes.len(),
{
    if outcomes.len() == 0 {
        false
    } else {
        match next_step(step, outcomes[0]) {
            None => outcomes.len() == 1,
            Some(next) => completes(next, outcomes.drop_first()),
        }
    }
}

/// Every step of the undoing worked, in the run that starts with `step`.
pub open spec fn undoing_worked(step: Step, outcomes: Seq<bool>) -> bool
    decreases outcomes.len(),
{
    if outcomes.len() == 0 {
        true
    } else {
        (is_teardown(step) ==> outcomes[0]) && match next_step(step, outcomes[0]) {
            None => true,
            Some(next) => undoing_worked(next, outcomes.drop_first()),
        }
    }
}

/// The machine after the run that starts with `step` on the machine `m`.
pub open spec fn machine_after(step: Step, m: Machine, outcomes: Seq<bool>) -> Machine
    decreases outcomes.len(),
{
    if outcomes.len() == 0 {
        m
    } else {
        let after = apply(m, step, outcomes[0]);
        match next_step(step, outcomes[0]) {
            None => after,
            Some(next) => machine_after(next, after, outcomes.drop_first()),
        }
    }
}

/// What the machine may hold of a run when `step` is due.
pub open spec fn may_hold(step: Step, m: Machine) -> bool {
    match step {
        Step::RemoveStaleOutput | Step::CreateCgroup => m == clean(),
        Step::LowerPolicy => !m.cpuset_narrowed,
        Step::LeaveCgroup => !m.cpuset_narrowed && !m.policy_raised,
        Step::DestroyCgroup => !m.cpuset_narrowed && !m.policy_raised && !m.in_cgroup,
        _ => true,
    }
}

/// Whatever happens in a run, if the steps of its undoing work, it leaves the machine as
/// it found it.
pub proof fn lemma_run_leaves_machine_clean(step: Step, m: Machine, outcomes: Seq<bool>)
    requires
        may_hold(step, m),
        completes(step, outcomes),
        undoing_worked(step, outcomes),
    ensures
        machine_after(step, m, outcomes) == clean(),
    decreases outcomes.len(),
{
    let after = apply(m, step, outcomes[0]);
    match next_step(step, outcomes[0]) {
        None => {},
        Some(next) => {
            lemma_run_leaves_machine_clean(next, after, outcomes.drop_first());
        },
    }
}

/// A run never ends between the creation of the control group and its destruction: once
/// the group exists, the last step of the run is the one that destroys it.
pub proof fn lemma_created_group_is_destroyed(step: Step, outcomes: Seq<bool>)
    requires
        completes(step, outcomes),
        step != Step::RemoveStaleOutput,
        step != Step::CreateCgroup,
    ensures
        last_step(step, outcomes) == Step::DestroyCgroup,
    decreases outcomes.len(),
{
    match next_step(step, outcomes[0]) {
        None => {},
        Some(next) => {
            lemma_created_group_is_destroyed(next, outcomes.drop_first());
        },
    }
}

/// The last step of the run that starts with `step`.
pub open spec fn last_step(step: Step, outcomes: Seq<bool>) -> Step
    decreases outcomes.len(),
{
    if outcomes.len() == 0 {
        step
    } else {
        match next_step(step, outcomes[0]) {
            None => step,
            Some(next) => last_step(next, outcomes.drop_first()),
        }
    }
}

impl RunSession {
    /// A run before its first step.
    pub fn start() -> (session: RunSession)
        ensures
            session.current == Some(Step::RemoveStaleOutput),
            !session.failed,
    {
        RunSession { current: Some(Step::RemoveStaleOutput), failed: false }
    }

    /// Takes the outcome of the current step and says which step is next, if any.
    pub fn advance(&mut self, ok: bool) -> (next: Option<Step>)
        ensures
            next == final(self).current,
            final(self).current == match old(self).current {
                Some(step) => next_step(step, ok),
                None => None,
            },
            final(self).failed == (old(self).failed || (old(self).current is Some && !ok)),
    {
        let step = match self.current {
            Some(step) => step,
            None => {
                return None;
            },
        };
        if !ok {
            self.failed = true;
        }
        let next = match step {
            Step::RemoveStaleOutput => if ok {
                Some(Step::CreateCgroup)
            } else {
                None
            },
            Step::CreateCgroup => if ok {
                Some(Step::EnterCgroup)
            } else {
                None
            },
            Step::EnterCgroup => if ok {
                Some(Step::RaisePolicy)
            } else {
                Some(Step::WidenCpuset)
            },
            Step::RaisePolicy => if ok {
                Some(Step::NarrowCpuset)
            } else {
                Some(Step::WidenCpuset)
            },
            Step::NarrowCpuset => if ok {
                Some(Step::Spawn)
            } else {
                Some(Step::WidenCpuset)
            },
            Step::Spawn => if ok {
                Some(Step::Wait)
            } else {
                Some(Step::WidenCpuset)
            },
            Step::Wait => Some(Step::WidenCpuset),
            Step::WidenCpuset => Some(Step::LowerPolicy),
            Step::LowerPolicy => Some(Step::LeaveCgroup),
            Step::LeaveCgroup => Some(Step::DestroyCgroup),
            Step::DestroyCgroup => None,
        };
        self.current = next;
        next
    }

    /// Whether the run is over and every step of it worked.
    pub fn succeeded(&self) -> (ok: bool)
        ensures
            ok == (self.current is None && !self.failed),
    {
        self.current.is_none() && !self.failed
    }
}

/// What `step` does in a run under the reservation `config`: the control group gets the
/// budget and the period of the reservation; the process runs round robin at priority
/// 99 on some set of as many processors as the reservation spans, and goes back to the
/// ordinary policy, all processors and the root group.
pub open spec fn action_for(step: Step, config: ConfigView) -> Action {
    match step {
        Step::RemoveStaleOutput => Action::RemoveStaleOutput,
        Step::CreateCgroup => Action::CreateCgroup {
            runtime_us: config.runtime.micros,
            period_us: config.period.micros,
        },
        Step::EnterCgroup => Action::EnterCgroup,
        Step::RaisePolicy => Action::SetScheduler(SchedPolicy::RR(99)),
        Step::NarrowCpuset => Action::SetCpuset(CpuChoice::AnySubset(config.cpus)),
        Step::Spawn => Action::Spawn,
        Step::Wait => Action::Wait,
        Step::WidenCpuset => Action::SetCpuset(CpuChoice::All),
        Step::LowerPolicy => Action::SetScheduler(SchedPolicy::Other),
        Step::LeaveCgroup => Action::EnterRootCgroup,
        Step::DestroyCgroup => Action::DestroyCgroup,
    }
}

/// What `step` does in a run under the reservation `config`.
pub fn action_of(step: Step, config: &NamedConfig) -> (action: Action)
    ensures
        action == action_for(step, config@),
{
    match step {
        Step::RemoveStaleOutput => Action::RemoveStaleOutput,
        Step::CreateCgroup => Action::CreateCgroup {
            runtime_us: config.runtime.micros,
            period_us: config.period.micros,
        },
        Step::EnterCgroup => Action::EnterCgroup,
        Step::RaisePolicy => Action::SetScheduler(SchedPolicy::RR(99)),
        Step::NarrowCpuset => Action::SetCpuset(CpuChoice::AnySubset(config.cpus)),
        Step::Spawn => Action::Spawn,
        Step::Wait => Action::Wait,
        Step::WidenCpuset => Action::SetCpuset(CpuChoice::All),
        Step::LowerPolicy => Action::SetScheduler(SchedPolicy::Other),
        Step::LeaveCgroup => Action::EnterRootCgroup,
        Step::DestroyCgroup => Action::DestroyCgroup,
    }
}

/// Whether the policy is one that the machine takes: a real-time priority lies between 1
/// and 99.
pub open spec fn policy_valid(policy: SchedPolicy) -> bool {
    match policy {
        SchedPolicy::RR(p) => 1 <= p <= 99,
        SchedPolicy::FIFO(p) => 1 <= p <= 99,
        SchedPolicy::Other => true,
    }
}

/// Every policy that a run asks for is one that the machine takes.
pub proof fn lemma_actions_ask_for_valid_policies(step: Step, config: ConfigView)
    ensures
        action_for(step, config) matches Action::SetScheduler(policy) ==> policy_valid(policy),
{
}

/// How many processors a choice takes on a machine with `online` processors: all of them,
/// or as many as were asked for. There is no such set on a machine without processors,
/// nor for none or for more processors than there are.
pub open spec fn cpus_taken(choice: CpuChoice, online: u64) -> Option<u64> {
    match choice {
        CpuChoice::All => if online > 0 {
            Some(online)
        } else {
            None
        },
        CpuChoice::AnySubset(count) => if 0 < count <= online {
            Some(count)
        } else {
            None
        },
    }
}

/// The processors that a choice takes on a machine with `online` processors: the first
/// and the last of them, which are the processors `0` to `count - 1`.
pub fn choose_cpus(choice: CpuChoice, online: u64) -> (range: Option<(u64, u64)>)
    ensures
        match cpus_taken(choice, online) {
            Some(count) => range == Some((0u64, (count - 1) as u64)),
            None => range is None,
        },
{
    let count = match choice {
        CpuChoice::All => online,
        CpuChoice::AnySubset(count) => count,
    };
    if count == 0 || count > online {
        None
    } else {
        Some((0, count - 1))
    }
}

} // verus!
