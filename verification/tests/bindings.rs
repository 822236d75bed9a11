use cpubind::bind::{
    affinity_set, affinity_set_ex, write_cpuset_tasks, AffinityResult, BindAction, BindReply,
    BindRun, FailLog,
};
use cpubind::cpuset::{from_range, CpuSet};
use cpubind::topology::{init_cpu_topo, BaseCpuset, CpuTopology};

const BASE: &str = "/dev/cpuset/base";

fn topo(cpusets: bool) -> CpuTopology {
    let mut t = init_cpu_topo(Some("0-7"), Some("0-7"), 0, &Vec::new());
    if cpusets {
        t.attach_base(Some(BaseCpuset { created: true, fd: 3, mems: None }));
    }
    t
}

fn outcome(ok: bool, errno: Option<i32>) -> BindReply {
    BindReply::Outcome { ok, errno }
}

fn current(cpus: Option<&str>) -> BindReply {
    BindReply::Current { cpus: cpus.map(from_range) }
}

fn end(run: &BindRun) -> (AffinityResult, Option<String>, Option<String>) {
    match run.action() {
        BindAction::Finish { result, effective, refused } => (
            result,
            effective.map(|c: CpuSet| c.to_range_string()),
            refused.map(|c: CpuSet| c.to_range_string()),
        ),
        _ => panic!("not finished"),
    }
}

fn set_action(run: &BindRun) -> (Option<String>, String) {
    match run.action() {
        BindAction::SetAffinity { tasks, cpus } => {
            let path = tasks.map(|(path, line)| {
                assert_eq!(line, "7\n");
                path
            });
            (path, cpus.to_range_string())
        },
        _ => panic!("nothing to set"),
    }
}

#[test]
fn task_files_lie_in_their_directories() {
    let entry = |path: &str, line: &str| Some((path.to_string(), line.to_string()));
    assert_eq!(write_cpuset_tasks(1234, "0-3", "/b", true), entry("/b/0-3/tasks", "1234\n"));
    assert_eq!(write_cpuset_tasks(-1, "", "/b", true), entry("/b/tasks", "-1\n"));
    assert!(write_cpuset_tasks(1234, "0-3", "/b", false).is_none());
}

#[test]
fn a_thread_that_is_there_already_is_left_alone() {
    let mut t = topo(true);
    let mut run = affinity_set_ex(7, &from_range("0-3"), "0-3", &mut t, BASE, 0, None);
    assert!(matches!(run.action(), BindAction::GetAffinity));
    assert!(affinity_set(&run).is_none());
    run.step(current(Some("0-3")));
    assert!(end(&run) == (AffinityResult::Bound, None, None));
    assert!(affinity_set(&run) == Some(AffinityResult::Bound));
}

#[test]
fn a_thread_is_bound_to_its_cpus() {
    let mut t = topo(true);
    let mut run = affinity_set_ex(7, &from_range("0-3"), "0-3", &mut t, BASE, 0, None);
    run.step(current(Some("0-7")));
    assert_eq!(set_action(&run), (Some(format!("{}/0-3/tasks", BASE)), "0-3".to_string()));
    run.step(outcome(true, None));
    assert!(end(&run) == (AffinityResult::Bound, None, None));
}

#[test]
fn a_thread_whose_cpus_cannot_be_read_is_bound() {
    let mut t = topo(false);
    let mut run = affinity_set_ex(7, &from_range("1"), "1", &mut t, BASE, 0, None);
    run.step(current(None));
    assert_eq!(set_action(&run), (None, "1".to_string()));
}

#[test]
fn a_thread_that_is_gone_is_dead() {
    let mut t = topo(false);
    let mut run = affinity_set_ex(7, &from_range("0-3"), "", &mut t, BASE, 0, None);
    run.step(current(None));
    run.step(outcome(false, Some(3)));
    assert!(end(&run) == (AffinityResult::Dead, None, None));
}

#[test]
fn other_errors_are_failures() {
    let mut t = topo(false);
    let mut run = affinity_set_ex(7, &from_range("0-3"), "", &mut t, BASE, 0, None);
    run.step(current(None));
    run.step(outcome(false, Some(1)));
    assert!(end(&run) == (AffinityResult::Failed, None, Some("0-3".to_string())));
}

#[test]
fn offline_cpus_are_left_out() {
    let mut t = topo(true);
    let mut run = affinity_set_ex(7, &from_range("4-7"), "4-7", &mut t, BASE, 1000, Some("0-5"));
    match run.action() {
        BindAction::EnsureDir { cpus } => assert_eq!(cpus.to_range_string(), "4-5"),
        _ => panic!(),
    }
    run.step(BindReply::Dir { name: "4-5".to_string() });
    run.step(current(None));
    assert_eq!(set_action(&run), (Some(format!("{}/4-5/tasks", BASE)), "4-5".to_string()));
    run.step(outcome(true, None));
    assert!(end(&run) == (AffinityResult::Bound, Some("4-5".to_string()), None));
    assert_eq!(t.online_at, 1000);
}

#[test]
fn a_cut_request_that_is_met_already_is_reported() {
    let mut t = topo(false);
    let mut run = affinity_set_ex(7, &from_range("4-7"), "x", &mut t, BASE, 1000, Some("0-5"));
    run.step(current(Some("4-5")));
    assert!(end(&run) == (AffinityResult::Bound, Some("4-5".to_string()), None));
}

#[test]
fn a_refused_set_is_cut_to_what_is_allowed() {
    let mut t = topo(true);
    let mut run = affinity_set_ex(7, &from_range("2-5"), "2-5", &mut t, BASE, 0, None);
    run.step(current(Some("0-1")));
    run.step(outcome(false, Some(22)));
    assert!(matches!(run.action(), BindAction::ReadAllowed));
    run.step(BindReply::Allowed { cpus: Some(from_range("0-3")) });
    match run.action() {
        BindAction::EnsureDir { cpus } => assert_eq!(cpus.to_range_string(), "2-3"),
        _ => panic!(),
    }
    run.step(BindReply::Dir { name: String::new() });
    assert_eq!(set_action(&run), (Some(format!("{}/tasks", BASE)), "2-3".to_string()));
    run.step(outcome(true, None));
    assert!(end(&run) == (AffinityResult::Bound, Some("2-3".to_string()), None));
}

fn refused_once(allowed: Option<&str>) -> BindRun {
    let mut t = topo(false);
    let mut run = affinity_set_ex(7, &from_range("4-5"), "", &mut t, BASE, 0, None);
    run.step(current(None));
    run.step(outcome(false, Some(22)));
    run.step(BindReply::Allowed { cpus: allowed.map(from_range) });
    run
}

#[test]
fn with_nothing_in_common_all_allowed_cpus_are_tried() {
    let mut run = refused_once(Some("0-1"));
    assert_eq!(set_action(&run), (None, "0-1".to_string()));
    run.step(outcome(false, Some(1)));
    let lost = Some("0-1".to_string());
    assert!(end(&run) == (AffinityResult::Failed, lost.clone(), lost));
}

#[test]
fn a_thread_may_die_before_the_second_try() {
    let mut run = refused_once(Some("4"));
    run.step(outcome(false, Some(3)));
    assert!(end(&run) == (AffinityResult::Dead, None, None));
}

#[test]
fn a_second_refusal_is_a_failure() {
    let mut run = refused_once(Some("4"));
    run.step(outcome(false, Some(22)));
    let lost = Some("4".to_string());
    assert!(end(&run) == (AffinityResult::Failed, lost.clone(), lost));
}

#[test]
fn without_a_list_of_allowed_cpus_there_is_no_second_try() {
    let run = refused_once(None);
    assert!(end(&run) == (AffinityResult::Failed, None, Some("4-5".to_string())));
}

#[test]
fn answers_out_of_turn_change_nothing() {
    let mut t = topo(false);
    let mut run = affinity_set_ex(7, &from_range("4-5"), "", &mut t, BASE, 0, None);
    run.step(outcome(true, None));
    run.step(BindReply::Dir { name: "x".to_string() });
    run.step(BindReply::Allowed { cpus: None });
    assert!(matches!(run.action(), BindAction::GetAffinity));
}

#[test]
fn what_is_reported_is_never_the_request() {
    for allowed in ["4-5", "4", "0-7"] {
        let mut run = refused_once(Some(allowed));
        run.step(outcome(true, None));
        let (_, effective, _) = end(&run);
        assert!(effective != Some("4-5".to_string()));
    }
}

#[test]
fn failures_are_reported_once() {
    let mut log = FailLog::new();
    assert!(log.log_bind_fail(1, &from_range("0-3")));
    assert!(!log.log_bind_fail(1, &from_range("0-3")));
    assert!(log.log_bind_fail(2, &from_range("0-3")));
    assert!(log.log_bind_fail(1, &from_range("0-4")));
    assert!(!log.log_bind_fail(2, &from_range("0-3")));
}
