use hcbs_test_suite::model::NamedConfig;
use hcbs_test_suite::session::{
    action_of, choose_cpus, Action, CpuChoice, RunSession, SchedPolicy, Step,
};
use hcbs_test_suite::time::Time;

fn steps_of(outcomes: &dyn Fn(Step) -> bool) -> (Vec<Step>, bool) {
    let mut session = RunSession::start();
    let mut steps = Vec::new();
    while let Some(step) = session.current {
        assert!(steps.len() < 20);
        steps.push(step);
        let next = session.advance(outcomes(step));
        assert_eq!(next, session.current);
    }
    (steps, session.succeeded())
}

const UNDO: [Step; 4] = [Step::WidenCpuset, Step::LowerPolicy, Step::LeaveCgroup, Step::DestroyCgroup];

#[test]
fn a_run_without_failure_takes_every_step_in_order() {
    let (steps, ok) = steps_of(&|_| true);
    assert!(ok);
    assert_eq!(
        steps,
        vec![
            Step::RemoveStaleOutput,
            Step::CreateCgroup,
            Step::EnterCgroup,
            Step::RaisePolicy,
            Step::NarrowCpuset,
            Step::Spawn,
            Step::Wait,
            Step::WidenCpuset,
            Step::LowerPolicy,
            Step::LeaveCgroup,
            Step::DestroyCgroup,
        ]
    );
}

#[test]
fn a_failure_before_the_group_exists_ends_the_run() {
    let (steps, ok) = steps_of(&|s| s != Step::RemoveStaleOutput);
    assert!(!ok);
    assert_eq!(steps, vec![Step::RemoveStaleOutput]);
    let (steps, ok) = steps_of(&|s| s != Step::CreateCgroup);
    assert!(!ok);
    assert_eq!(steps, vec![Step::RemoveStaleOutput, Step::CreateCgroup]);
}

#[test]
fn any_later_failure_still_undoes_everything() {
    for failing in [Step::EnterCgroup, Step::RaisePolicy, Step::NarrowCpuset, Step::Spawn, Step::Wait] {
        let (steps, ok) = steps_of(&|s| s != failing);
        assert!(!ok);
        assert_eq!(steps[steps.len() - 4..], UNDO);
        assert_eq!(steps[steps.len() - 5], failing);
    }
    for failing in UNDO {
        let (steps, ok) = steps_of(&|s| s != failing);
        assert!(!ok);
        assert_eq!(steps.len(), 11);
        assert_eq!(steps[steps.len() - 4..], UNDO);
    }
    let (steps, ok) = steps_of(&|s| s == Step::RemoveStaleOutput || s == Step::CreateCgroup);
    assert!(!ok);
    assert_eq!(steps[2..], [Step::EnterCgroup, Step::WidenCpuset, Step::LowerPolicy, Step::LeaveCgroup, Step::DestroyCgroup]);
}

#[test]
fn a_finished_session_stays_finished() {
    let mut session = RunSession::start();
    while session.advance(true).is_some() {}
    assert!(session.succeeded());
    assert_eq!(session.advance(false), None);
    assert!(session.succeeded());
}

#[test]
fn steps_carry_the_numbers_of_the_reservation() {
    let config = NamedConfig {
        name: "c".to_string(),
        cpus: 3,
        runtime: Time::from_millis(50).unwrap(),
        period: Time::from_millis(100).unwrap(),
    };
    assert_eq!(
        action_of(Step::CreateCgroup, &config),
        Action::CreateCgroup { runtime_us: 50_000, period_us: 100_000 }
    );
    assert_eq!(action_of(Step::RaisePolicy, &config), Action::SetScheduler(SchedPolicy::RR(99)));
    assert_eq!(action_of(Step::NarrowCpuset, &config), Action::SetCpuset(CpuChoice::AnySubset(3)));
    assert_eq!(action_of(Step::WidenCpuset, &config), Action::SetCpuset(CpuChoice::All));
    assert_eq!(action_of(Step::LowerPolicy, &config), Action::SetScheduler(SchedPolicy::Other));
    assert_eq!(action_of(Step::EnterCgroup, &config), Action::EnterCgroup);
    assert_eq!(action_of(Step::LeaveCgroup, &config), Action::EnterRootCgroup);
    assert_eq!(action_of(Step::DestroyCgroup, &config), Action::DestroyCgroup);
    assert_eq!(action_of(Step::Spawn, &config), Action::Spawn);
    assert_eq!(action_of(Step::Wait, &config), Action::Wait);
    assert_eq!(action_of(Step::RemoveStaleOutput, &config), Action::RemoveStaleOutput);
}

#[test]
fn processors_are_taken_from_the_first_on() {
    assert_eq!(choose_cpus(CpuChoice::All, 8), Some((0, 7)));
    assert_eq!(choose_cpus(CpuChoice::AnySubset(1), 8), Some((0, 0)));
    assert_eq!(choose_cpus(CpuChoice::AnySubset(8), 8), Some((0, 7)));
    assert_eq!(choose_cpus(CpuChoice::AnySubset(9), 8), None);
    assert_eq!(choose_cpus(CpuChoice::AnySubset(0), 8), None);
    assert_eq!(choose_cpus(CpuChoice::All, 0), None);
}
