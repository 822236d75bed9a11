use cpubind::process::{
    cgroup_events_path, is_background, is_foreground, is_frozen, is_user_process, load_level, read_allowed_cpus, read_cmdline,
    read_oom_score_adj, read_thread_cpu_time, scan_package, scan_pid, scan_unknown, task_tids,
    thread_times, tid_comm, ProcReading,
};

fn strings(items: &[&str]) -> Vec<String> {
    items.iter().map(|s| s.to_string()).collect()
}

#[test]
fn the_package_ends_at_the_first_nul() {
    assert_eq!(read_cmdline(Some("com.example.app\0--flag\0")).unwrap(), "com.example.app");
    assert_eq!(read_cmdline(Some("plain")).unwrap(), "plain");
    assert!(read_cmdline(Some("\0x")).is_none());
    assert!(read_cmdline(Some("")).is_none());
    assert!(read_cmdline(None).is_none());
}

#[test]
fn thread_ids_are_the_numbers_among_the_names() {
    let names = strings(&["12", "x", "34", "", "99999999999", "-5", "+7"]);
    assert_eq!(task_tids(Some(&names)).unwrap(), vec![12, 34, -5, 7]);
    assert_eq!(task_tids(Some(&Vec::new())).unwrap(), Vec::<i32>::new());
    assert!(task_tids(None).is_none());
}

#[test]
fn thread_names_are_trimmed() {
    assert_eq!(tid_comm(Some(" RenderThread\n")).unwrap(), "RenderThread");
    assert!(tid_comm(Some(" \n")).is_none());
    assert!(tid_comm(None).is_none());
}

#[test]
fn scores_are_numbers() {
    assert_eq!(read_oom_score_adj(Some("-800\n")), Some(-800));
    assert_eq!(read_oom_score_adj(Some("900")), Some(900));
    assert_eq!(read_oom_score_adj(Some("x")), None);
    assert_eq!(read_oom_score_adj(None), None);
}

#[test]
fn scores_tell_foreground_and_background() {
    assert!(is_foreground(Some(0), false) && is_foreground(Some(-1000), false));
    assert!(!is_foreground(Some(1), false) && !is_foreground(None, false));
    assert!(is_background(Some(900)) && is_background(Some(999)));
    assert!(!is_background(Some(899)) && !is_background(None));
}

#[test]
fn a_frozen_process_is_not_in_the_foreground() {
    assert!(!is_foreground(Some(0), true));
    assert!(!is_foreground(Some(-1000), true));
    assert!(!is_foreground(Some(1), true) && !is_foreground(None, true));
}

#[test]
fn control_groups_say_whether_a_process_is_frozen() {
    assert!(is_frozen(Some("populated 1\nfrozen 1\n")));
    assert!(!is_frozen(Some("populated 1\nfrozen 0\n")));
    assert!(!is_frozen(Some("frozen 10\nfrozen\nfrozen 1 1\n1 frozen\n")));
    assert!(!is_frozen(Some("")) && !is_frozen(None));
}

#[test]
fn control_groups_have_a_file_of_events() {
    let groups = "3:cpuset:/top-app\n0::/uid_10123/pid_4567\n0::/other\n";
    assert_eq!(
        cgroup_events_path(Some(groups)).unwrap(),
        "/sys/fs/cgroup/uid_10123/pid_4567/cgroup.events"
    );
    assert!(cgroup_events_path(Some("3:cpuset:/top-app\n10::/x\n")).is_none());
    assert!(cgroup_events_path(None).is_none());
}

#[test]
fn allowed_cpus_come_from_the_status() {
    let status = "Name:\tx\nCpus_allowed:\tff\nCpus_allowed_list:\t0-3,7\nMems_allowed:\t1\n";
    assert_eq!(read_allowed_cpus(Some(status)).unwrap().to_range_string(), "0-3,7");
    assert!(read_allowed_cpus(Some("Cpus_allowed_list:\t\n")).is_none());
    let twice = "Cpus_allowed_list:\t\r\nCpus_allowed_list:\t2\r\n";
    assert_eq!(read_allowed_cpus(Some(twice)).unwrap().to_range_string(), "2");
    assert!(read_allowed_cpus(Some(" Cpus_allowed_list: 1")).is_none());
    assert!(read_allowed_cpus(None).is_none());
}

const STAT: &str = "42 (My Thread) S 1 42 42 0 -1 4194560 100 0 0 0 250 50 7 9 20 0 1 0 123 0";

#[test]
fn cpu_time_is_user_and_system_time() {
    assert_eq!(thread_times(STAT), Some((250, 50)));
    assert_eq!(read_thread_cpu_time(Some(STAT)), Some(300));
}

#[test]
fn cpu_time_needs_all_fields() {
    assert_eq!(read_thread_cpu_time(None), None);
    assert_eq!(read_thread_cpu_time(Some("no name here")), None);
    assert_eq!(read_thread_cpu_time(Some("1 (x) S 1 2 3 4 5 6 7 8 9 10 11 12 13")), None);
    assert_eq!(read_thread_cpu_time(Some("1 (x) S 1 2 3 4 5 6 7 8 9 10 11 12 13 14")), Some(23));
    assert_eq!(read_thread_cpu_time(Some("1 (x) S 1 2 3 4 5 6 7 8 9 10 -1 12 13 14")), None);
}

#[test]
fn levels_are_steps_of_the_share() {
    assert_eq!(load_level(100, 0, 0), 0);
    assert_eq!(load_level(0, 0, 100), 1);
    assert_eq!(load_level(5, 0, 100), 1);
    assert_eq!(load_level(6, 0, 100), 3);
    assert_eq!(load_level(15, 0, 100), 3);
    assert_eq!(load_level(16, 0, 100), 5);
    assert_eq!(load_level(35, 0, 100), 5);
    assert_eq!(load_level(36, 0, 100), 7);
    assert_eq!(load_level(60, 0, 100), 7);
    assert_eq!(load_level(61, 0, 100), 10);
    assert_eq!(load_level(1000, 0, 100), 10);
    assert_eq!(load_level(159, 100, 1000), 1);
}

#[test]
fn time_that_ran_backwards_is_no_load() {
    assert_eq!(load_level(5, 10, 100), 1);
    assert_eq!(load_level(0, u64::MAX, 1), 1);
}

#[test]
fn levels_never_fall_with_more_time() {
    let mut last = 0;
    for t in 0..200 {
        let level = load_level(t, 0, 100);
        assert!(level >= last && level <= 10);
        last = level;
    }
}

#[test]
fn app_processes_have_high_numbers() {
    assert_eq!(scan_pid("1000"), Some(1000));
    assert_eq!(scan_pid("999"), None);
    assert_eq!(scan_pid("self"), None);
}

#[test]
fn packages_of_apps_have_a_dot_and_no_path() {
    let known = strings(&["com.known"]);
    assert_eq!(scan_package(Some("com.new\0"), &known).unwrap(), "com.new");
    assert!(scan_package(Some("com.known\0"), &known).is_none());
    assert!(scan_package(Some("/system/bin/x.y"), &known).is_none());
    assert!(scan_package(Some("zygote"), &known).is_none());
    assert!(scan_package(Some(""), &known).is_none());
    assert!(scan_package(None, &known).is_none());
}

#[test]
fn apps_have_high_user_ids() {
    assert!(is_user_process(Some("Name:\tx\nUid:\t10123\t10123\n")));
    assert!(!is_user_process(Some("Uid:\t9999\t10123\n")));
    assert!(!is_user_process(Some("Uid:\nUid:\t10123\n")));
    assert!(!is_user_process(Some("Uid: x\n")));
    assert!(!is_user_process(Some("Gid:\t10123\n")));
    assert!(!is_user_process(None));
}

fn reading(name: &str, cmdline: &str, uid: &str) -> ProcReading {
    ProcReading {
        name: name.to_string(),
        cmdline: Some(format!("{}\0", cmdline)),
        wildcard: false,
        status: Some(format!("Uid:\t{}\t0\n", uid)),
        tasks: vec![
            (name.to_string(), Some("main\n".to_string())),
            ("odd".to_string(), None),
        ],
    }
}

#[test]
fn unknown_apps_are_listed_with_their_threads() {
    let mut wild = reading("2002", "com.wild", "10001");
    wild.wildcard = true;
    let mut bare = reading("2003", "com.bare", "10001");
    bare.tasks.clear();
    let mut gone = reading("2004", "com.gone", "10001");
    gone.status = None;
    let readings = vec![
        reading("2000", "com.one", "10001"),
        reading("999", "com.low", "10001"),
        reading("2001", "com.known", "10001"),
        wild,
        bare,
        gone,
        reading("2005", "com.sys", "1000"),
        reading("2006", "com.two", "10000"),
    ];
    let out = scan_unknown(&readings, &strings(&["com.known"]));
    assert_eq!(out.len(), 2);
    assert_eq!(out[0].pid, 2000);
    assert_eq!(out[0].pkg, "com.one");
    assert_eq!(out[0].threads, vec![(2000, "main".to_string()), (0, String::new())]);
    assert_eq!(out[1].pid, 2006);
    assert_eq!(out[1].pkg, "com.two");
}
