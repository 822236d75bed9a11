use cpubind::cpuset::{from_range, CpuSet};
use cpubind::topology::{
    create_cpuset_dir, detect_core_types, ensure_cpuset_dir, init_cpu_topo, read_online_cpus,
    BaseCpuset, CpuTopology, DirAction, DirRun, PolicyReading, ONLINE_REFRESH_MS,
};

fn policy(name: &str, freq: Option<&str>, cpus: Option<&str>) -> PolicyReading {
    PolicyReading {
        name: name.to_string(),
        max_freq: freq.map(|s| s.to_string()),
        related_cpus: cpus.map(|s| s.to_string()),
    }
}

fn policies() -> Vec<PolicyReading> {
    vec![
        policy("policy7", Some("3200000\n"), Some("7\n")),
        policy("policy0", Some("1800000\n"), Some("0 1 2 3\n")),
        policy("policy4", Some("2500000\n"), Some("4 5\n")),
        policy("policy6", Some("2800000\n"), Some("6\n")),
    ]
}

fn topo() -> CpuTopology {
    init_cpu_topo(Some("0-7\n"), Some("0-7\n"), 0, &policies())
}

fn text(s: &CpuSet) -> String {
    s.to_range_string()
}

#[test]
fn online_cpus_are_those_present() {
    let present = from_range("0-7");
    assert_eq!(text(&read_online_cpus(Some(" 0-5,9\n"), &present).unwrap()), "0-5");
    assert!(read_online_cpus(Some("\n"), &present).is_none());
    assert!(read_online_cpus(None, &present).is_none());
    assert_eq!(text(&read_online_cpus(Some("9"), &present).unwrap()), "");
}

#[test]
fn tiers_follow_the_frequencies() {
    let (e, p, h) = detect_core_types(&policies());
    assert_eq!(text(&e), "0-3");
    assert_eq!(text(&p), "4-6");
    assert_eq!(text(&h), "7");
}

#[test]
fn equal_frequencies_are_one_tier() {
    let rs = vec![
        policy("policy0", Some("1000"), Some("0 1")),
        policy("policy2", Some("1000"), Some("2")),
        policy("policy3", Some("2000"), Some("3")),
    ];
    let (e, p, h) = detect_core_types(&rs);
    assert_eq!(text(&e), "0-2");
    assert_eq!(text(&p), "");
    assert_eq!(text(&h), "3");
}

#[test]
fn one_frequency_alone_is_the_slowest() {
    let (e, p, h) = detect_core_types(&vec![policy("policy0", Some("5"), Some("0 1 2"))]);
    assert_eq!(text(&e), "0-2");
    assert!(p.is_empty() && h.is_empty());
    let (e, p, h) = detect_core_types(&Vec::new());
    assert!(e.is_empty() && p.is_empty() && h.is_empty());
}

#[test]
fn policies_without_data_do_not_count() {
    let rs = vec![
        policy("stats", Some("1"), Some("0")),
        policy("policy0", Some("0"), Some("1")),
        policy("policy1", Some("x"), Some("2")),
        policy("policy2", None, Some("3")),
        policy("policy3", Some("7"), None),
        policy("policy4", Some("7"), Some("a b")),
        policy("policy5", Some("9"), Some("5 x 2000")),
    ];
    let (e, p, h) = detect_core_types(&rs);
    assert_eq!(text(&e), "5");
    assert!(p.is_empty() && h.is_empty());
}

#[test]
fn tiers_hold_every_listed_cpu_once() {
    let (e, p, h) = detect_core_types(&policies());
    let mut all = e;
    all.or(&p);
    all.or(&h);
    assert_eq!(text(&all), "0-7");
    assert_eq!(e.count() + p.count() + h.count(), 8);
}

#[test]
fn the_start_has_everything_but_cpusets() {
    let t = init_cpu_topo(Some(" 0-7\n"), Some("0-3\n"), 42, &policies());
    assert_eq!(t.present_str, "0-7");
    assert_eq!(text(&t.present_cpus), "0-7");
    assert_eq!(text(&t.online_now), "0-3");
    assert_eq!(t.online_at, 42);
    assert_eq!(t.mems_str, "");
    assert!(!t.cpuset_enabled);
    assert_eq!(t.base_cpuset_fd, -1);
    assert_eq!(text(&t.e_core), "0-3");
    assert_eq!(text(&t.p_core), "4-6");
    assert_eq!(text(&t.hp_core), "7");
}

#[test]
fn without_a_list_of_online_cpus_all_are_online() {
    assert_eq!(text(&init_cpu_topo(Some("0-7"), None, 0, &Vec::new()).online_now), "0-7");
    assert_eq!(text(&init_cpu_topo(Some("0-7"), Some(""), 0, &Vec::new()).online_now), "0-7");
    let t = init_cpu_topo(None, Some("0-3"), 0, &Vec::new());
    assert_eq!(t.present_str, "");
    assert!(t.present_cpus.is_empty() && t.online_now.is_empty());
}

#[test]
fn masks_are_cut_to_what_is_online() {
    let mut t = topo();
    let want = from_range("4-7");
    assert_eq!(text(&t.clip_online(1000, Some("0-5"), &want)), "4-5");
    assert_eq!(text(&t.online_now), "0-5");
    assert_eq!(t.online_at, 1000);
}

#[test]
fn masks_fall_back_to_all_online_cpus() {
    let mut t = topo();
    assert_eq!(text(&t.clip_online(1000, Some("0-5"), &from_range("6-7"))), "0-5");
}

#[test]
fn online_cpus_are_read_once_a_second() {
    let mut t = topo();
    assert!(!t.refresh_due(ONLINE_REFRESH_MS - 1));
    assert_eq!(text(&t.clip_online(999, Some("0-1"), &from_range("0-7"))), "0-7");
    assert_eq!(t.online_at, 0);
    assert!(t.refresh_due(1000));
    assert_eq!(text(&t.clip_online(1000, None, &from_range("0-7"))), "0-7");
    assert_eq!(t.online_at, 1000);
    assert!(!t.refresh_due(1999));
}

#[test]
fn the_base_directory_turns_cpusets_on() {
    let mut t = topo();
    t.attach_base(None);
    assert!(!t.cpuset_enabled);
    assert_eq!(t.mems_str, "");
    t.attach_base(Some(BaseCpuset { created: true, fd: 9, mems: Some("0-1\n".to_string()) }));
    assert!(t.cpuset_enabled);
    assert_eq!(t.base_cpuset_fd, 9);
    assert_eq!(t.mems_str, "0-1");
}

#[test]
fn a_base_directory_that_failed_leaves_cpusets_off() {
    let mut t = topo();
    t.attach_base(Some(BaseCpuset { created: false, fd: 9, mems: None }));
    assert!(!t.cpuset_enabled);
    assert_eq!(t.base_cpuset_fd, -1);
    assert_eq!(t.mems_str, "0");
    t.attach_base(Some(BaseCpuset { created: true, fd: -1, mems: None }));
    assert!(!t.cpuset_enabled);
}

#[test]
fn the_base_directory_holds_every_cpu() {
    let run = topo().base_dir("/dev/cpuset/base");
    assert_eq!(run.path, "/dev/cpuset/base");
    assert_eq!(run.cpus, "0-7");
    assert_eq!(run.mems, "0");
}

fn drive(run: &mut DirRun, replies: &[(bool, Option<i32>)]) -> bool {
    for &(ok, errno) in replies {
        run.step(ok, errno);
    }
    match run.action() {
        DirAction::Finish { made } => made,
        _ => panic!("not finished"),
    }
}

#[test]
fn a_directory_takes_five_steps() {
    let mut run = create_cpuset_dir("/b/0-3", "0-3", "0");
    assert!(matches!(run.action(), DirAction::MakeDir { mode: 0o755 }));
    run.step(true, None);
    assert!(matches!(run.action(), DirAction::SetMode { mode: 0o755 }));
    run.step(true, None);
    assert!(matches!(run.action(), DirAction::SetOwner { uid: 0, gid: 0 }));
    run.step(true, None);
    match run.action() {
        DirAction::WriteFile { path, content } => {
            assert_eq!(path, "/b/0-3/cpus");
            assert_eq!(content, "0-3");
        },
        _ => panic!(),
    }
    run.step(true, None);
    match run.action() {
        DirAction::WriteFile { path, content } => {
            assert_eq!(path, "/b/0-3/mems");
            assert_eq!(content, "0");
        },
        _ => panic!(),
    }
    run.step(true, None);
    assert!(matches!(run.action(), DirAction::Finish { made: true }));
    assert_eq!(run.dir_name(), "0-3");
}

#[test]
fn a_directory_that_is_there_is_used() {
    let good = (true, None);
    let mut run = create_cpuset_dir("/b/1", "1", "0");
    assert!(drive(&mut run, &[(false, Some(17)), good, good, good, good]));
}

#[test]
fn any_failing_step_spoils_a_directory() {
    for bad in 0..5 {
        let mut replies = [(true, None); 5];
        replies[bad] = (false, Some(13));
        let mut run = create_cpuset_dir("/b/1", "1", "0");
        assert!(!drive(&mut run, &replies));
        assert_eq!(run.dir_name(), "");
    }
    let good = (true, None);
    let mut run = create_cpuset_dir("/b/1", "1", "0");
    assert!(!drive(&mut run, &[good, (false, Some(17)), good, good, good]));
}

#[test]
fn directories_are_named_after_their_cpus() {
    let mut t = topo();
    assert!(ensure_cpuset_dir(&from_range("0-3"), &t, "/base").is_none());
    t.attach_base(Some(BaseCpuset { created: true, fd: 3, mems: Some("0".to_string()) }));
    let run = ensure_cpuset_dir(&from_range("4,6-7"), &t, "/base").unwrap();
    assert_eq!(run.path, "/base/4,6-7");
    assert_eq!(run.cpus, "4,6-7");
    assert_eq!(run.mems, "0");
}
