use cpubind::bpf::{
    comm_keys_build, comm_map_init, comm_to_pkg, decode_event, reader_step, CommMapPlan,
    ReaderStep, COMM_CUT, EVENT_EXEC, EVENT_EXIT, EVENT_FG, EVENT_FORK, EVENT_RENAME,
    EVENT_SIZE, FG_CGROUP_DIR, KEY_LEN, RING_KEY, WAKEUP_KEY,
};
use cpubind::config::AppConfig;
use cpubind::probe::{
    format_path, offsets_from, probe, tracefs_root, tracepoint_parse, EbpfOffsets, ProbeRun,
    ProbeStep, Tracepoint,
};
use cpubind::topology::init_cpu_topo;

fn strings(items: &[&str]) -> Vec<String> {
    items.iter().map(|s| s.to_string()).collect()
}

fn config(pkgs: &[&str]) -> AppConfig {
    let topo = init_cpu_topo(Some("0-7"), None, 0, &Vec::new());
    AppConfig::new(topo, &strings(pkgs), &strings(&pkgs[..1]), false, false)
}

#[test]
fn a_configuration_lists_no_package_twice() {
    let topo = init_cpu_topo(Some("0-7"), None, 7, &Vec::new());
    let cfg = AppConfig::new(
        topo.clone(),
        &strings(&["b", "a", "b", "", "a", ""]),
        &strings(&["a", "a"]),
        true,
        false,
    );
    assert_eq!(cfg.pkg_set, strings(&["b", "a", ""]));
    assert_eq!(cfg.thread_rule_pkgs, strings(&["a"]));
    assert!(cfg.foreground_aware && !cfg.load_aware);
    assert_eq!((cfg.topo.present_str.as_str(), cfg.topo.online_at), ("0-7", 7));
}

#[test]
fn packages_with_thread_rules_are_listed() {
    let cfg = config(&["com.one", "com.two"]);
    assert!(cfg.pkg_has_thread_rules("com.one"));
    assert!(!cfg.pkg_has_thread_rules("com.two"));
}

#[test]
fn a_name_that_is_a_package_is_that_package() {
    let cfg = config(&["com.example.longer.application", "com.one"]);
    assert_eq!(comm_to_pkg("com.one", &cfg).unwrap(), "com.one");
    assert!(comm_to_pkg("com.on", &cfg).is_none());
    assert!(comm_to_pkg("", &cfg).is_none());
}

#[test]
fn a_cut_name_is_matched_at_either_end() {
    let long = "com.example.longer.application";
    let cfg = config(&["com.other", long]);
    assert_eq!(comm_to_pkg("com.example.lon", &cfg).unwrap(), long);
    assert_eq!(comm_to_pkg("ger.application", &cfg).unwrap(), long);
    assert!(comm_to_pkg("example.longer.", &cfg).is_none());
}

#[test]
fn a_short_name_is_not_matched_in_part() {
    let cfg = config(&["com.example.longer.application"]);
    assert_eq!(COMM_CUT, 15);
    assert!(comm_to_pkg("com.example.lo", &cfg).is_none());
    assert!(comm_to_pkg("er.application", &cfg).is_none());
}

#[test]
fn lengths_count_bytes() {
    let cfg = config(&["éééééééé.app"]);
    assert_eq!(comm_to_pkg("éééééééé", &cfg).unwrap(), "éééééééé.app");
    assert!(comm_to_pkg("ééééééé", &cfg).is_none());
}

#[test]
fn beginnings_come_before_ends() {
    let cfg = config(&["x.abcdefghijklmno", "abcdefghijklmno.x", "abcdefghijklmno.y"]);
    assert_eq!(comm_to_pkg("abcdefghijklmno", &cfg).unwrap(), "abcdefghijklmno.x");
}

#[test]
fn keys_are_both_ends_of_a_name() {
    assert_eq!(KEY_LEN, 8);
    let keys = comm_keys_build(&strings(&["com.example.app"]));
    assert_eq!(keys, vec![*b"com.exam", *b"mple.app"]);
}

#[test]
fn short_names_are_filled_up_with_zeros() {
    assert_eq!(comm_keys_build(&strings(&["abc"])), vec![*b"abc\0\0\0\0\0"]);
    assert_eq!(comm_keys_build(&strings(&["abcdefgh"])), vec![*b"abcdefgh"]);
    assert_eq!(comm_keys_build(&strings(&["abcdefghi"])), vec![*b"abcdefgh", *b"bcdefghi"]);
}

#[test]
fn empty_names_have_no_keys() {
    assert!(comm_keys_build(&strings(&["", ""])).is_empty());
    assert!(comm_keys_build(&Vec::new()).is_empty());
}

#[test]
fn keys_are_sorted_and_single() {
    let keys = comm_keys_build(&strings(&[
        "zz", "com.example.app", "aa", "com.example.map", "com.exam", "é", "aa",
    ]));
    let mut expected = vec![
        *b"zz\0\0\0\0\0\0", *b"com.exam", *b"mple.app", *b"aa\0\0\0\0\0\0", *b"mple.map",
        [0xc3, 0xa9, 0, 0, 0, 0, 0, 0],
    ];
    expected.sort();
    assert_eq!(keys, expected);
}

#[test]
fn keys_do_not_depend_on_the_order_of_names() {
    let a = comm_keys_build(&strings(&["com.example.app", "org.other.thing", "x"]));
    let b = comm_keys_build(&strings(&["x", "org.other.thing", "com.example.app", "x"]));
    assert_eq!(a, b);
}

#[test]
fn matched_names_have_a_key_in_the_whitelist() {
    let pkgs = ["com.example.longer.application", "com.one", "org.some.other.package"];
    let cfg = config(&pkgs);
    let keys = comm_keys_build(&cfg.pkg_set);
    for comm in ["com.example.lon", "ger.application", "com.one", ".other.package"] {
        if comm_to_pkg(comm, &cfg).is_some() {
            let own = comm_keys_build(&strings(&[comm]));
            assert!(own.iter().any(|k| keys.contains(k)));
        }
    }
}

#[test]
fn the_whitelist_needs_room() {
    let pkgs = strings(&["com.example.app", "com.one"]);
    assert!(matches!(comm_map_init(false, &pkgs, 0), CommMapPlan::Leave));
    assert!(matches!(comm_map_init(true, &pkgs, 2), CommMapPlan::Reload));
    match comm_map_init(true, &pkgs, 3) {
        CommMapPlan::Fill { keys } => assert_eq!(keys, comm_keys_build(&pkgs)),
        _ => panic!(),
    }
}

fn event_bytes() -> Vec<u8> {
    let mut b = Vec::new();
    b.extend_from_slice(&(-2i32).to_le_bytes());
    b.extend_from_slice(&70000i32.to_le_bytes());
    b.extend_from_slice(b"RenderThread\0\0\0\0");
    b.extend_from_slice(&EVENT_RENAME.to_le_bytes());
    b
}

#[test]
fn events_are_decoded() {
    let mut b = event_bytes();
    assert_eq!(b.len(), EVENT_SIZE);
    b.push(9);
    let e = decode_event(&b, false).unwrap();
    assert_eq!(e.pid, -2);
    assert_eq!(e.tid, 70000);
    assert_eq!(&e.comm, b"RenderThread\0\0\0\0");
    assert_eq!(e.event_type, EVENT_RENAME);
}

#[test]
fn events_may_have_the_other_byte_order() {
    let mut b = Vec::new();
    b.extend_from_slice(&i32::MIN.to_be_bytes());
    b.extend_from_slice(&0x01020304i32.to_be_bytes());
    b.extend_from_slice(&[7; 16]);
    b.extend_from_slice(&0xfffffffeu32.to_be_bytes());
    let e = decode_event(&b, true).unwrap();
    assert_eq!((e.pid, e.tid, e.event_type), (i32::MIN, 0x01020304, 0xfffffffe));
    assert_eq!(e.comm, [7; 16]);
}

#[test]
fn short_items_are_no_events() {
    assert!(decode_event(&event_bytes()[..27], false).is_none());
    assert!(decode_event(&[], false).is_none());
}

#[test]
fn kinds_and_places_are_fixed() {
    assert_eq!([EVENT_FORK, EVENT_EXEC, EVENT_RENAME, EVENT_EXIT, EVENT_FG], [1, 2, 3, 4, 5]);
    assert_eq!(FG_CGROUP_DIR, "/dev/cpuset/top-app");
}

#[test]
fn the_reader_ends_when_told_to() {
    assert!(reader_step(2, None, &vec![RING_KEY, WAKEUP_KEY]) == ReaderStep::Stop);
    assert!(reader_step(1, None, &vec![WAKEUP_KEY, RING_KEY]) == ReaderStep::Stop);
    assert!(reader_step(1, None, &vec![RING_KEY, WAKEUP_KEY]) == ReaderStep::Drain);
    assert!(reader_step(2, None, &vec![RING_KEY, RING_KEY]) == ReaderStep::Drain);
}

#[test]
fn the_reader_repeats_an_interrupted_wait() {
    assert!(reader_step(-1, Some(4), &vec![]) == ReaderStep::Retry);
    assert!(reader_step(-1, Some(9), &vec![]) == ReaderStep::Stop);
    assert!(reader_step(-1, None, &vec![]) == ReaderStep::Stop);
    assert!(reader_step(0, Some(4), &vec![]) == ReaderStep::Stop);
}

#[test]
fn the_trace_file_system_is_looked_for_in_two_places() {
    assert_eq!(tracefs_root(true, true), Some("/sys/kernel/tracing"));
    assert_eq!(tracefs_root(false, true), Some("/sys/kernel/debug/tracing"));
    assert_eq!(tracefs_root(false, false), None);
    assert_eq!(
        format_path("/sys/kernel/tracing", "task", "task_rename"),
        "/sys/kernel/tracing/events/task/task_rename/format"
    );
}

const FORK: &str = "name: sched_process_fork
ID: 315
format:
\tfield:unsigned short common_type;\toffset:0;\tsize:2;\tsigned:0;

\tfield:char parent_comm[16];\toffset:8;\tsize:16;\tsigned:0;
\tfield:pid_t parent_pid;\toffset:24;\tsize:4;\tsigned:1;
\tfield:char child_comm[16];\toffset:28;\tsize:16;\tsigned:0;
\tfield:pid_t child_pid;\toffset:44;\tsize:4;\tsigned:1;

print fmt: \"comm=%s\"
";

const RENAME: &str = "\tfield:char newcomm[16];\toffset: 28 ;\tsize:16;\tsigned:0;\n";

const CGROUP: &str = "\tfield:u64 dst_id;\toffset:16;\n\tfield:int pid;\toffset:24;\n";

#[test]
fn fields_and_their_offsets_are_parsed() {
    let f = tracepoint_parse(Some(FORK)).unwrap();
    assert_eq!(f.get("common_type"), Some(0));
    assert_eq!(f.get("parent_comm"), Some(8));
    assert_eq!(f.get("child_comm"), Some(28));
    assert_eq!(f.get("child_pid"), Some(44));
    assert_eq!(f.get("child"), None);
    assert!(tracepoint_parse(None).is_none());
    assert_eq!(tracepoint_parse(Some("")).unwrap().get("x"), None);
}

#[test]
fn odd_lines_describe_no_field() {
    let f = tracepoint_parse(Some(
        "field:a\nfield:int b;size:4\nfield:;offset:3\nfield:[4];offset:3\nfield:int c;offset:x;offset:9\n\
         field:int d;offset:4294967296\nint e;offset:1\nfield:int f ;offset:+6\n",
    ))
    .unwrap();
    assert_eq!(f.get("a"), None);
    assert_eq!(f.get("b"), None);
    assert_eq!(f.get(""), None);
    assert_eq!(f.get("c"), Some(9));
    assert_eq!(f.get("d"), None);
    assert_eq!(f.get("e"), None);
    assert_eq!(f.get("f"), Some(6));
}

#[test]
fn the_later_of_two_fields_counts() {
    let f = tracepoint_parse(Some("field:int a;offset:1\nfield:int a;offset:2")).unwrap();
    assert_eq!(f.get("a"), Some(2));
}

#[test]
fn offsets_come_from_three_tracepoints() {
    let all = offsets_from(Some(FORK), Some(RENAME), Some(CGROUP)).unwrap();
    let expected = EbpfOffsets {
        fork_child_pid: 44,
        fork_child_comm: 28,
        rename_newcomm: 28,
        cg_dst_id: 16,
        cg_pid: 24,
    };
    assert!(all == expected);
}

#[test]
fn the_control_groups_are_optional() {
    let some = offsets_from(Some(FORK), Some(RENAME), None).unwrap();
    assert_eq!((some.cg_dst_id, some.cg_pid), (0, 0));
    let half = offsets_from(Some(FORK), Some(RENAME), Some("field:int pid;offset:8")).unwrap();
    assert_eq!((half.cg_dst_id, half.cg_pid), (0, 8));
}

#[test]
fn the_other_tracepoints_are_needed() {
    assert!(offsets_from(None, Some(RENAME), Some(CGROUP)).is_none());
    assert!(offsets_from(Some(FORK), None, Some(CGROUP)).is_none());
    assert!(offsets_from(Some(FORK), Some(""), Some(CGROUP)).is_none());
    assert!(offsets_from(Some("field:int child_pid;offset:1"), Some(RENAME), None).is_none());
    assert!(offsets_from(Some("field:int child_comm;offset:1"), Some(RENAME), None).is_none());
}

#[test]
fn tracepoints_have_names_and_categories() {
    let all = [
        (Tracepoint::Fork, "sched", "sched_process_fork", true),
        (Tracepoint::Exec, "sched", "sched_process_exec", true),
        (Tracepoint::Exit, "sched", "sched_process_exit", true),
        (Tracepoint::Rename, "task", "task_rename", false),
        (Tracepoint::Cgroup, "cgroup", "cgroup_attach_task", false),
    ];
    for (t, category, name, required) in all {
        assert_eq!(t.category(), category);
        assert_eq!(t.name(), name);
        assert_eq!(t.required(), required);
    }
}

fn load(fails: &[ProbeStep]) -> (ProbeRun, Vec<ProbeStep>) {
    let mut run = probe(true);
    let mut steps = Vec::new();
    while run.step != ProbeStep::Ready && run.step != ProbeStep::Off {
        steps.push(run.step);
        let ok = !fails.contains(&run.step);
        run.advance(ok);
    }
    (run, steps)
}

#[test]
fn loading_takes_ten_steps() {
    let (run, steps) = load(&[]);
    assert!(run.step == ProbeStep::Ready);
    assert_eq!(steps.len(), 10);
    assert!(steps[1] == ProbeStep::Inject);
    assert!(steps[2] == ProbeStep::Attach { at: Tracepoint::Fork });
    assert!(steps[9] == ProbeStep::InitForeground);
}

#[test]
fn loading_that_is_not_asked_for_is_off() {
    let mut run = probe(false);
    assert!(run.step == ProbeStep::Off);
    run.advance(true);
    assert!(run.step == ProbeStep::Off);
}

#[test]
fn what_is_required_must_work() {
    let required = [
        ProbeStep::Load,
        ProbeStep::Inject,
        ProbeStep::Attach { at: Tracepoint::Fork },
        ProbeStep::Attach { at: Tracepoint::Exec },
        ProbeStep::Attach { at: Tracepoint::Exit },
        ProbeStep::MakeWakeup,
        ProbeStep::TakeEvents,
    ];
    for step in required {
        assert!(load(&[step]).0.step == ProbeStep::Off);
    }
}

#[test]
fn every_probe_is_tried_before_giving_up() {
    let (_, steps) = load(&[ProbeStep::Attach { at: Tracepoint::Fork }]);
    assert!(steps.last() == Some(&ProbeStep::Attach { at: Tracepoint::Cgroup }));
}

#[test]
fn what_is_optional_may_fail() {
    let rename = ProbeStep::Attach { at: Tracepoint::Rename };
    let cgroup = ProbeStep::Attach { at: Tracepoint::Cgroup };
    let (run, steps) = load(&[rename, cgroup]);
    assert!(run.step == ProbeStep::Ready);
    assert!(!steps.contains(&ProbeStep::InitForeground));
    assert!(load(&[ProbeStep::InitForeground]).0.step == ProbeStep::Ready);
}
