use cpubind::bind::AffinityResult;
use cpubind::config::AppConfig;
use cpubind::cpuset::{from_range, CpuSet};
use cpubind::proccache::{ProcCache, TaskEntry, ThreadAffinity};
use cpubind::sync::{SyncAction, SyncPhase, SyncReply, ThreadSync, CAP_TTL};
use cpubind::topology::{init_cpu_topo, BaseCpuset, PolicyReading};

fn policy(name: &str, freq: &str, cpus: &str) -> PolicyReading {
    PolicyReading {
        name: name.to_string(),
        max_freq: Some(freq.to_string()),
        related_cpus: Some(cpus.to_string()),
    }
}

fn config(foreground_aware: bool, load_aware: bool, cpusets: bool) -> AppConfig {
    let policies = vec![
        policy("policy0", "1000", "0 1 2 3"),
        policy("policy4", "2000", "4 5 6"),
        policy("policy7", "3000", "7"),
    ];
    let mut topo = init_cpu_topo(Some("0-7"), Some("0-7"), 0, &policies);
    if cpusets {
        topo.attach_base(Some(BaseCpuset { created: true, fd: 3, mems: None }));
    }
    AppConfig {
        topo,
        pkg_set: vec!["com.one".to_string(), "com.two".to_string()],
        thread_rule_pkgs: vec!["com.two".to_string()],
        foreground_aware,
        load_aware,
    }
}

fn rule(cpus: &str, is_thread_rule: bool) -> ThreadAffinity {
    ThreadAffinity { cpus: from_range(cpus), cpuset_dir: cpus.to_string(), is_thread_rule }
}

fn entry(pid: i32, cpus: &str) -> TaskEntry {
    TaskEntry {
        pid,
        cpus: from_range(cpus),
        cpuset_dir: cpus.to_string(),
        is_thread_rule: false,
        failed: false,
        base_cpus: from_range(cpus),
        prev_ticks: 0,
        cap: CpuSet::new(),
        cap_age: 0,
    }
}

fn text(s: &CpuSet) -> String {
    s.to_range_string()
}

#[test]
fn a_new_cache_is_empty_and_so_is_a_cleared_one() {
    let mut c = ProcCache::new();
    assert!(c.pkgs.is_empty() && c.tasks.is_empty());
    c.pkgs.insert(1, ("a".to_string(), true));
    c.tasks.insert(2, entry(1, "0"));
    c.clear();
    assert!(c.pkgs.is_empty() && c.tasks.is_empty());
}

#[test]
fn a_package_goes_with_its_last_thread() {
    let mut c = ProcCache::new();
    c.pkgs.insert(1, ("a".to_string(), true));
    c.pkgs.insert(2, ("b".to_string(), false));
    c.tasks.insert(10, entry(1, "0"));
    c.tasks.insert(11, entry(1, "0"));
    c.tasks.insert(20, entry(2, "0"));
    c.task_del(10);
    assert!(c.pkgs.contains_key(&1) && !c.tasks.contains_key(&10));
    c.task_del(11);
    assert!(!c.pkgs.contains_key(&1));
    assert!(c.pkgs.contains_key(&2) && c.tasks.contains_key(&20));
    c.task_del(99);
    assert_eq!((c.pkgs.len(), c.tasks.len()), (1, 1));
}

#[test]
fn packages_are_looked_up_once() {
    let cfg = config(false, false, false);
    let mut c = ProcCache::new();
    assert_eq!(c.pkg_lookup_comm(5, "com.two", &cfg), Some(("com.two".to_string(), true)));
    assert_eq!(c.pkg_lookup_comm(5, "whatever", &cfg), Some(("com.two".to_string(), true)));
    assert_eq!(c.pkg_lookup_comm(6, "com.one", &cfg), Some(("com.one".to_string(), false)));
    assert_eq!(c.pkg_lookup_comm(7, "whatever", &cfg), None);
    assert_eq!(c.pkgs.len(), 2);
}

fn apply(
    c: &mut ProcCache,
    cfg: &AppConfig,
    given: Option<ThreadAffinity>,
    reply: (bool, Option<&str>),
) -> bool {
    c.task_apply(
        10,
        1,
        "com.two",
        "Render",
        true,
        cfg,
        true,
        |pkg: &str, name: &str| {
            assert_eq!((pkg, name), ("com.two", "Render"));
            given
        },
        |tid: i32, _cpus: &CpuSet, _dir: &str| {
            assert_eq!(tid, 10);
            (reply.0, reply.1.map(from_range))
        },
        |cpus: &CpuSet| format!("dir {}", cpus.to_range_string()),
    )
}

#[test]
fn a_thread_is_bound_by_its_rule() {
    let cfg = config(false, false, true);
    let mut c = ProcCache::new();
    assert!(apply(&mut c, &cfg, Some(rule("4-6", true)), (false, None)));
    let t = &c.tasks[&10];
    assert_eq!((t.pid, t.is_thread_rule, t.failed), (1, true, false));
    assert_eq!((text(&t.cpus), text(&t.base_cpus)), ("4-6".to_string(), "4-6".to_string()));
    assert_eq!((t.cpuset_dir.as_str(), t.prev_ticks, t.cap_age), ("4-6", 0, 0));
    assert!(t.cap.is_empty());
}

#[test]
fn a_thread_without_a_rule_is_not_bound() {
    let cfg = config(false, false, true);
    let mut c = ProcCache::new();
    assert!(!apply(&mut c, &cfg, None, (false, None)));
    assert!(c.tasks.is_empty());
}

#[test]
fn a_dead_thread_is_forgotten() {
    let cfg = config(false, false, true);
    let mut c = ProcCache::new();
    c.tasks.insert(10, entry(1, "0-3"));
    assert!(!apply(&mut c, &cfg, Some(rule("4-6", false)), (true, Some("4"))));
    assert!(c.tasks.is_empty());
}

#[test]
fn the_set_in_force_becomes_target_and_limit() {
    let mut c = ProcCache::new();
    assert!(apply(&mut c, &config(false, false, true), Some(rule("4-7", false)), (false, Some("4-5"))));
    let t = &c.tasks[&10];
    assert_eq!((text(&t.cpus), text(&t.cap)), ("4-5".to_string(), "4-5".to_string()));
    assert_eq!(text(&t.base_cpus), "4-7");
    assert_eq!(t.cpuset_dir, "dir 4-5");
    let mut c = ProcCache::new();
    assert!(apply(&mut c, &config(false, false, false), Some(rule("4-7", false)), (false, Some("4-5"))));
    assert_eq!(c.tasks[&10].cpuset_dir, "");
}

#[test]
fn a_known_limit_is_kept() {
    let cfg = config(false, false, true);
    let mut c = ProcCache::new();
    let mut old = entry(1, "0-3");
    old.cap = from_range("2");
    old.cap_age = 2;
    old.failed = true;
    c.tasks.insert(10, old);
    assert!(apply(&mut c, &cfg, Some(rule("4-7", false)), (false, None)));
    let t = &c.tasks[&10];
    assert_eq!((text(&t.cap), t.cap_age, t.failed), ("2".to_string(), 0, false));
    assert_eq!(text(&t.cpus), "4-7");
}

#[test]
fn a_package_rule_does_not_replace_a_thread_rule() {
    let cfg = config(false, false, true);
    let mut c = ProcCache::new();
    assert!(apply(&mut c, &cfg, Some(rule("7", true)), (false, None)));
    assert!(c.task_keeps(10, &rule("0-3", false)));
    assert!(apply(&mut c, &cfg, Some(rule("0-3", false)), (true, None)));
    assert_eq!(text(&c.tasks[&10].cpus), "7");
    assert!(!c.task_keeps(10, &rule("0-3", true)));
    assert!(apply(&mut c, &cfg, Some(rule("0-3", true)), (false, None)));
    assert_eq!(text(&c.tasks[&10].cpus), "0-3");
}

#[test]
fn names_count_only_where_they_can_be_trusted() {
    let cfg = config(false, false, false);
    for (rules, trust, expected) in [(true, true, "n"), (true, false, ""), (false, true, "")] {
        let mut c = ProcCache::new();
        c.task_apply(
            1,
            1,
            "p",
            "n",
            rules,
            &cfg,
            trust,
            |_: &str, name: &str| {
                assert_eq!(name, expected);
                None
            },
            |_: i32, _: &CpuSet, _: &str| (false, None),
            |_: &CpuSet| String::new(),
        );
    }
}

#[test]
fn thread_rules_are_not_adjusted() {
    let cfg = config(true, true, true);
    let mut t = entry(1, "4-6");
    t.is_thread_rule = true;
    t.prev_ticks = 100;
    assert!(!t.adjust_target(&cfg, 100, true, None));
    assert!(!t.adjust_target(&cfg, 100, false, Some(200)));
    assert_eq!((text(&t.cpus), t.prev_ticks), ("4-6".to_string(), 100));
}

#[test]
fn background_threads_go_to_slow_cpus_and_come_back() {
    let cfg = config(true, false, true);
    let mut t = entry(1, "4-6");
    assert!(t.adjust_target(&cfg, 100, true, None));
    assert_eq!(text(&t.cpus), "0-3");
    assert!(!t.adjust_target(&cfg, 100, true, None));
    assert!(t.adjust_target(&cfg, 100, false, None));
    assert_eq!(text(&t.cpus), "4-6");
}

#[test]
fn the_background_counts_only_where_asked_for() {
    let cfg = config(false, false, true);
    let mut t = entry(1, "4-6");
    assert!(!t.adjust_target(&cfg, 100, true, None));
    assert_eq!(text(&t.cpus), "4-6");
}

#[test]
fn load_moves_threads() {
    let cfg = config(true, true, true);
    let mut t = entry(1, "4-6");
    assert!(t.samples_load(&cfg, 100, false));
    assert!(!t.adjust_target(&cfg, 100, false, Some(1000)));
    assert_eq!(t.prev_ticks, 1000);
    assert!(t.adjust_target(&cfg, 100, false, Some(1090)));
    assert_eq!(text(&t.cpus), "4-7");
    assert!(t.adjust_target(&cfg, 100, false, Some(1092)));
    assert_eq!(text(&t.cpus), "0-3");
    assert!(t.adjust_target(&cfg, 100, false, Some(1122)));
    assert_eq!((text(&t.cpus), t.prev_ticks), ("4-6".to_string(), 1122));
}

#[test]
fn load_is_not_sampled_without_need() {
    let t = entry(1, "4-6");
    assert!(!t.samples_load(&config(true, true, true), 0, false));
    assert!(!t.samples_load(&config(true, true, true), 9, true));
    assert!(!t.samples_load(&config(true, false, true), 9, false));
    assert!(t.samples_load(&config(false, true, true), 9, true));
}

#[test]
fn targets_stay_within_the_limit() {
    let cfg = config(true, false, true);
    let mut t = entry(1, "4-6");
    t.cap = from_range("3-5");
    t.adjust_target(&cfg, 100, false, None);
    assert_eq!(text(&t.cpus), "4-5");
    t.adjust_target(&cfg, 100, true, None);
    assert_eq!(text(&t.cpus), "3");
    t.cap = from_range("7");
    t.adjust_target(&cfg, 100, true, None);
    assert_eq!(text(&t.cpus), "7");
}

fn run_of(t: TaskEntry, cfg: &AppConfig) -> ThreadSync {
    ThreadSync::new(10, t, cfg, 100, false)
}

fn bound(cfg: &AppConfig, run: &mut ThreadSync, result: AffinityResult, eff: Option<&str>) {
    run.step(cfg, SyncReply::Outcome { result, effective: eff.map(from_range) });
}

#[test]
fn a_period_binds_the_thread() {
    let cfg = config(false, false, true);
    let mut run = run_of(entry(1, "4-6"), &cfg);
    match run.action() {
        SyncAction::Bind { cpus, dir } => {
            assert_eq!((text(&cpus).as_str(), dir.as_str()), ("4-6", "4-6"));
        },
        _ => panic!(),
    }
    bound(&cfg, &mut run, AffinityResult::Bound, None);
    assert!(matches!(run.action(), SyncAction::Finish));
    assert!(!run.dead && !run.entry.failed);
}

#[test]
fn a_new_target_gets_a_directory_first() {
    let cfg = config(false, true, true);
    let mut t = entry(1, "4-6");
    t.prev_ticks = 100;
    let mut run = run_of(t, &cfg);
    assert!(matches!(run.action(), SyncAction::ReadTicks));
    run.step(&cfg, SyncReply::Ticks { ticks: Some(200) });
    match run.action() {
        SyncAction::EnsureDir { cpus } => assert_eq!(text(&cpus), "4-7"),
        _ => panic!(),
    }
    run.step(&cfg, SyncReply::Dir { name: "new".to_string() });
    match run.action() {
        SyncAction::Bind { cpus, dir } => {
            assert_eq!((text(&cpus).as_str(), dir.as_str()), ("4-7", "new"));
        },
        _ => panic!(),
    }
}

#[test]
fn without_cpusets_there_are_no_directories() {
    let cfg = config(true, false, false);
    let mut run = ThreadSync::new(10, entry(1, "4-6"), &cfg, 100, true);
    match run.action() {
        SyncAction::Bind { cpus, dir } => {
            assert_eq!((text(&cpus).as_str(), dir.as_str()), ("0-3", ""));
        },
        _ => panic!(),
    }
    bound(&cfg, &mut run, AffinityResult::Bound, Some("0-1"));
    assert!(run.phase == SyncPhase::Done);
    assert_eq!((text(&run.entry.cpus).as_str(), run.entry.cpuset_dir.as_str()), ("0-1", ""));
}

#[test]
fn a_limit_is_taken_down() {
    let cfg = config(false, false, true);
    let mut run = run_of(entry(1, "4-6"), &cfg);
    bound(&cfg, &mut run, AffinityResult::Bound, Some("4"));
    match run.action() {
        SyncAction::EnsureDir { cpus } => assert_eq!(text(&cpus), "4"),
        _ => panic!(),
    }
    run.step(&cfg, SyncReply::Dir { name: "4".to_string() });
    assert!(run.phase == SyncPhase::Done);
    let t = &run.entry;
    assert_eq!((text(&t.cpus), text(&t.cap), t.cap_age), ("4".to_string(), "4".to_string(), 0));
    assert_eq!((text(&t.base_cpus).as_str(), t.cpuset_dir.as_str()), ("4-6", "4"));
}

#[test]
fn a_limited_target_is_asked_for_again() {
    let cfg = config(false, false, true);
    let mut run = run_of(entry(1, "4-6"), &cfg);
    bound(&cfg, &mut run, AffinityResult::Bound, Some("4"));
    run.step(&cfg, SyncReply::Dir { name: "4".to_string() });
    let next = run_of(run.entry, &cfg);
    match next.action() {
        SyncAction::Bind { cpus, dir } => {
            assert_eq!((text(&cpus).as_str(), dir.as_str()), ("4", "4"));
        },
        _ => panic!(),
    }
}

#[test]
fn a_limit_expires() {
    let cfg = config(false, false, true);
    let mut t = entry(1, "4-6");
    t.cpus = from_range("4");
    t.cpuset_dir = "4".to_string();
    t.cap = from_range("4");
    for age in 1..=CAP_TTL {
        let mut run = run_of(t, &cfg);
        bound(&cfg, &mut run, AffinityResult::Bound, None);
        assert!(run.phase == SyncPhase::Done);
        t = run.entry;
        assert_eq!((text(&t.cap), t.cap_age), ("4".to_string(), age));
    }
    let mut run = run_of(t, &cfg);
    bound(&cfg, &mut run, AffinityResult::Bound, None);
    match run.action() {
        SyncAction::EnsureDir { cpus } => assert_eq!(text(&cpus), "4-6"),
        _ => panic!(),
    }
    run.step(&cfg, SyncReply::Dir { name: "4-6".to_string() });
    let t = run.entry;
    assert!(t.cap.is_empty());
    assert_eq!((text(&t.cpus).as_str(), t.cpuset_dir.as_str(), t.cap_age), ("4-6", "4-6", 0));
}

#[test]
fn a_refused_binding_is_marked() {
    let cfg = config(false, false, true);
    let mut run = run_of(entry(1, "4-6"), &cfg);
    bound(&cfg, &mut run, AffinityResult::Failed, Some("5"));
    run.step(&cfg, SyncReply::Dir { name: "5".to_string() });
    assert!(run.entry.failed && !run.dead);
    assert_eq!(text(&run.entry.cpus), "5");
}

#[test]
fn answers_out_of_turn_change_nothing_in_a_period() {
    let cfg = config(false, false, true);
    let mut run = run_of(entry(1, "4-6"), &cfg);
    run.step(&cfg, SyncReply::Dir { name: "x".to_string() });
    run.step(&cfg, SyncReply::Ticks { ticks: Some(5) });
    assert!(run.phase == SyncPhase::Bind);
    assert_eq!((run.entry.cpuset_dir.as_str(), run.entry.prev_ticks), ("4-6", 0));
}

fn full_cache() -> ProcCache {
    let mut c = ProcCache::new();
    c.pkgs.insert(1, ("a".to_string(), false));
    c.pkgs.insert(2, ("b".to_string(), false));
    c.tasks.insert(10, entry(1, "4-6"));
    c.tasks.insert(11, entry(1, "4-6"));
    c.tasks.insert(20, entry(2, "4-6"));
    let mut refused = entry(2, "7");
    refused.failed = true;
    c.tasks.insert(21, refused);
    c
}

#[test]
fn processes_are_asked_about_once() {
    let c = full_cache();
    let mut pids = c.sync_pids(&config(true, false, false));
    pids.sort();
    assert_eq!(pids, vec![1, 2]);
    assert!(c.sync_pids(&config(false, false, false)).is_empty());
}

#[test]
fn a_period_leaves_out_refused_threads() {
    let cfg = config(true, false, true);
    let runs = full_cache().sync_runs(&cfg, 0, &vec![2]);
    let mut tids: Vec<i32> = runs.iter().map(|r| r.tid).collect();
    tids.sort();
    assert_eq!(tids, vec![10, 11, 20]);
    for r in &runs {
        assert_eq!(r.is_bg, r.tid == 20);
        assert_eq!(text(&r.entry.cpus), if r.tid == 20 { "0-3" } else { "4-6" });
    }
}

#[test]
fn a_period_forgets_the_dead_and_keeps_the_rest() {
    let cfg = config(false, false, true);
    let mut c = full_cache();
    let mut runs = c.sync_runs(&cfg, 0, &Vec::new());
    for r in runs.iter_mut() {
        let result = match r.tid {
            20 => AffinityResult::Failed,
            _ => AffinityResult::Dead,
        };
        bound(&cfg, r, result, None);
    }
    let mut dead = c.affinity_sync(&runs);
    dead.sort();
    assert_eq!(dead, vec![10, 11]);
    assert!(!c.pkgs.contains_key(&1) && c.pkgs.contains_key(&2));
    let mut left: Vec<i32> = c.tasks.keys().copied().collect();
    left.sort();
    assert_eq!(left, vec![20, 21]);
    assert!(c.tasks[&20].failed && c.tasks[&21].failed);
}

#[test]
fn unfinished_and_unknown_runs_change_nothing() {
    let cfg = config(false, false, true);
    let mut c = full_cache();
    let mut runs = c.sync_runs(&cfg, 0, &Vec::new());
    runs.push(ThreadSync::new(99, entry(9, "0"), &cfg, 0, false));
    bound(&cfg, runs.last_mut().unwrap(), AffinityResult::Bound, None);
    assert!(c.affinity_sync(&runs).is_empty());
    assert_eq!(c.tasks.len(), 4);
    assert!(!c.tasks.contains_key(&99));
}

#[test]
fn a_thread_bound_by_its_rule_stays_there() {
    let cfg = config(true, false, true);
    let mut c = ProcCache::new();
    assert!(apply(&mut c, &cfg, Some(rule("4-6", false)), (false, None)));
    let runs = c.sync_runs(&cfg, 100, &Vec::new());
    match runs[0].action() {
        SyncAction::Bind { cpus, dir } => {
            assert_eq!((text(&cpus).as_str(), dir.as_str()), ("4-6", "4-6"));
        },
        _ => panic!(),
    }
}

#[test]
fn limits_never_outlive_their_time() {
    let cfg = config(false, false, false);
    let mut t = entry(1, "4-6");
    t.cap = from_range("4");
    for n in 0..12 {
        let mut run = run_of(t, &cfg);
        let eff = if n % 5 == 4 { Some("4") } else { None };
        bound(&cfg, &mut run, AffinityResult::Bound, eff);
        t = run.entry;
        assert!(t.cap_age <= CAP_TTL);
    }
}

fn apply_without_calls(c: &mut ProcCache, given: Option<ThreadAffinity>) -> bool {
    c.task_apply(
        10,
        1,
        "com.two",
        "Render",
        true,
        &config(false, false, true),
        true,
        |_: &str, _: &str| given,
        |_: i32, _: &CpuSet, _: &str| panic!("nothing is to be bound"),
        |_: &CpuSet| panic!("no directory is to be made"),
    )
}

#[test]
fn a_thread_that_keeps_its_binding_is_not_bound_again() {
    let mut c = ProcCache::new();
    let mut named = entry(1, "7");
    named.is_thread_rule = true;
    c.tasks.insert(10, named);
    assert!(apply_without_calls(&mut c, Some(rule("0-3", false))));
    assert_eq!(text(&c.tasks[&10].cpus), "7");
}

#[test]
fn a_thread_without_a_rule_is_not_touched() {
    let mut c = ProcCache::new();
    c.tasks.insert(10, entry(1, "7"));
    assert!(!apply_without_calls(&mut c, None));
    assert_eq!(text(&c.tasks[&10].cpus), "7");
}

#[test]
fn a_thread_is_bound_once_with_its_rule() {
    let calls = std::cell::RefCell::new(Vec::new());
    let mut c = ProcCache::new();
    c.tasks.insert(11, entry(2, "7"));
    c.pkgs.insert(2, ("b".to_string(), false));
    let bound = c.task_apply(
        10,
        1,
        "com.two",
        "Render",
        true,
        &config(false, false, true),
        true,
        |_: &str, _: &str| Some(rule("4-6", false)),
        |tid: i32, cpus: &CpuSet, dir: &str| {
            calls.borrow_mut().push((tid, text(cpus), dir.to_string()));
            (false, None)
        },
        |_: &CpuSet| panic!("no directory is to be made"),
    );
    assert!(bound && c.tasks.contains_key(&10) && c.tasks.contains_key(&11));
    assert!(c.pkgs.contains_key(&2));
    assert_eq!(calls.into_inner(), vec![(10, "4-6".to_string(), "4-6".to_string())]);
}

#[test]
fn a_directory_is_made_for_the_set_in_force_alone() {
    for (cpusets, dead) in [(false, false), (true, true)] {
        let mut c = ProcCache::new();
        c.task_apply(
            10,
            1,
            "p",
            "n",
            true,
            &config(false, false, cpusets),
            true,
            |_: &str, _: &str| Some(rule("4-6", false)),
            |_: i32, _: &CpuSet, _: &str| (dead, Some(from_range("4"))),
            |_: &CpuSet| panic!("no directory is to be made"),
        );
        assert_eq!(c.tasks.contains_key(&10), !dead);
    }
}

#[test]
fn a_period_takes_over_what_the_runs_have_come_to() {
    let cfg = config(false, false, true);
    let mut c = full_cache();
    let mut runs = c.sync_runs(&cfg, 0, &Vec::new());
    for r in runs.iter_mut() {
        let result = if r.tid == 20 { AffinityResult::Dead } else { AffinityResult::Bound };
        bound(&cfg, r, result, Some("5"));
        r.step(&cfg, SyncReply::Dir { name: format!("d{}", r.tid) });
    }
    assert_eq!(c.affinity_sync(&runs), vec![20]);
    for tid in [10, 11] {
        assert_eq!(text(&c.tasks[&tid].cap), "5");
        assert_eq!(c.tasks[&tid].cpuset_dir, format!("d{}", tid));
    }
    assert_eq!(text(&c.tasks[&21].cpus), "7");
    assert!(c.pkgs.contains_key(&1) && c.pkgs.contains_key(&2));
}

#[test]
fn without_a_limit_there_is_no_age() {
    let cfg = config(false, false, false);
    let mut run = run_of(entry(1, "4-6"), &cfg);
    bound(&cfg, &mut run, AffinityResult::Bound, None);
    assert!(run.entry.cap.is_empty());
    assert_eq!(run.entry.cap_age, 0);
}
