//! Processes and threads: what their files in the process file system say.

use vstd::prelude::*;

use crate::cpuset;
use crate::cpuset::{parse_cpu_ranges, CpuSet};
use crate::text;
use crate::text::{
    contains_char, contains_text, find_char, lines, parse_i32, parse_unsigned, same_text,
    starts_with, strip_prefix, trim, words,
};
use crate::topology;

verus! {

/// Lowest process id that belongs to an app.
pub const MIN_USER_PID: i32 = 1000;

/// Lowest user id of an app.
pub const MIN_APP_UID: u64 = 10000;

// ---------------------------------------------------------------------------
// Files of a process
// ---------------------------------------------------------------------------

/// What precedes the first NUL of a command line: the package name.
pub open spec fn package_of(cmdline: Seq<char>) -> Seq<char> {
    cmdline.take(text::find(cmdline, seq!['\0']) as int)
}

/// The package name at the start of a command line.
fn package_name(cmdline: &str) -> (out: String)
    ensures
        out@ == package_of(cmdline@),
{
    proof {
        text::lemma_find(cmdline@, seq!['\0']);
    }
    match find_char(cmdline, '\0') {
        Some(k) => {
            let head = cmdline.substring_char(0, k);
            assert(head@ =~= package_of(cmdline@));
            head.to_owned()
        },
        None => {
            assert(cmdline@.take(cmdline@.len() as int) =~= cmdline@);
            cmdline.to_owned()
        },
    }
}

/// The package name in a command line. `None` where there is none, or where the
/// command line could not be read.
pub fn read_cmdline(content: Option<&str>) -> (out: Option<String>)
    ensures
        out.deep_view() == (match content.deep_view() {
            Some(c) if package_of(c).len() > 0 => Some(package_of(c)),
            _ => None,
        }),
{
    match content {
        Some(c) => {
            let pkg = package_name(c);
            if pkg.as_str().is_empty() {
                None
            } else {
                Some(pkg)
            }
        },
        None => None,
    }
}

/// The thread ids among `names`, in their order; what is no number is left out.
pub open spec fn numbers_in(names: Seq<Seq<char>>) -> Seq<int>
    decreases names.len(),
{
    if names.len() == 0 {
        seq![]
    } else {
        let init = numbers_in(names.drop_last());
        match text::parsed_i32(names.last()) {
            Some(n) => init.push(n),
            None => init,
        }
    }
}

/// The ids of a process's threads, from the names in its task directory; `None`
/// where that could not be read.
pub fn task_tids(names: Option<&Vec<String>>) -> (out: Option<Vec<i32>>)
    ensures
        out is Some <==> names is Some,
        out matches Some(tids) ==> tids@.map_values(|t: i32| t as int) == numbers_in(
            text::string_views((names->0)@),
        ),
{
    match names {
        Some(ns) => {
            let ghost vs = text::string_views(ns@);
            let mut tids: Vec<i32> = Vec::new();
            assert(tids@.map_values(|t: i32| t as int) =~= numbers_in(vs.take(0)));
            for i in 0..ns.len()
                invariant
                    vs == text::string_views(ns@),
                    tids@.map_values(|t: i32| t as int) == numbers_in(vs.take(i as int)),
            {
                proof {
                    assert(vs.take(i + 1).drop_last() =~= vs.take(i as int));
                    assert(vs.take(i + 1).last() == ns@[i as int]@);
                }
                if let Some(t) = parse_i32(ns[i].as_str()) {
                    let ghost before = tids@;
                    tids.push(t);
                    assert(tids@.map_values(|t: i32| t as int) =~= before.map_values(
                        |t: i32| t as int,
                    ).push(t as int));
                }
            }
            assert(vs.take(vs.len() as int) =~= vs);
            Some(tids)
        },
        None => None,
    }
}

/// The name of a thread, without white space around it. `None` where nothing is
/// left, or where it could not be read.
pub fn tid_comm(content: Option<&str>) -> (out: Option<String>)
    ensures
        out.deep_view() == (match content.deep_view() {
            Some(c) if text::trimmed(c).len() > 0 => Some(text::trimmed(c)),
            _ => None,
        }),
{
    match content {
        Some(c) => {
            let s = trim(c);
            if s.is_empty() {
                None
            } else {
                Some(s.to_owned())
            }
        },
        None => None,
    }
}

/// The kernel's memory-pressure score of a process. `None` where it is no number
/// or could not be read.
pub fn read_oom_score_adj(content: Option<&str>) -> (out: Option<i32>)
    ensures
        out matches Some(adj) ==> content is Some && text::parsed_i32(
            text::trimmed(content.deep_view()->0),
        ) == Some(adj as int),
        out is None ==> (content is Some ==> text::parsed_i32(
            text::trimmed(content.deep_view()->0),
        ) is None),
{
    match content {
        Some(c) => parse_i32(trim(c)),
        None => None,
    }
}

/// Where control groups are mounted.
pub const CGROUP_ROOT: &'static str = "/sys/fs/cgroup";

/// The control group on the first of `ls` that names one in the unified hierarchy.
pub open spec fn cgroup_in(ls: Seq<Seq<char>>) -> Option<Seq<char>>
    decreases ls.len(),
{
    if ls.len() == 0 {
        None
    } else if text::has_prefix(ls[0], "0::"@) {
        Some(ls[0].skip("0::"@.len() as int))
    } else {
        cgroup_in(ls.drop_first())
    }
}

/// Path of the file that says whether a process is frozen, from the list of its
/// control groups. `None` where that names none in the unified hierarchy, or could
/// not be read.
pub fn cgroup_events_path(content: Option<&str>) -> (out: Option<String>)
    ensures
        out.deep_view() == (match content.deep_view() {
            Some(c) => match cgroup_in(text::lines_of(c)) {
                Some(group) => Some(CGROUP_ROOT@ + group + "/cgroup.events"@),
                None => None,
            },
            None => None,
        }),
{
    let c = match content {
        Some(c) => c,
        None => {
            return None;
        },
    };
    let ls = lines(c);
    let ghost vs = text::lines_of(c@);
    assert(vs.skip(0) =~= vs);
    for i in 0..ls.len()
        invariant
            content == Some(c),
            text::views(ls@) == vs,
            vs == text::lines_of(c@),
            cgroup_in(vs) == cgroup_in(vs.skip(i as int)),
    {
        proof {
            assert(vs.skip(i as int)[0] == ls@[i as int]@);
            assert(vs.skip(i as int).drop_first() =~= vs.skip(i + 1));
        }
        if let Some(group) = strip_prefix(ls[i], "0::") {
            return Some(CGROUP_ROOT.to_owned().concat(group).concat("/cgroup.events"));
        }
    }
    None
}

/// Whether `line` says that a control group is frozen.
pub open spec fn says_frozen(line: Seq<char>) -> bool {
    text::words_of(line) == seq!["frozen"@, "1"@]
}

/// Whether one of `ls` says that a control group is frozen.
pub open spec fn some_says_frozen(ls: Seq<Seq<char>>) -> bool {
    exists|i: int| 0 <= i < ls.len() && says_frozen(#[trigger] ls[i])
}

/// Whether a process is frozen, from the events of its control group. One whose
/// events could not be read is not.
pub fn is_frozen(content: Option<&str>) -> (b: bool)
    ensures
        b == (content.deep_view() matches Some(c) && some_says_frozen(text::lines_of(c))),
{
    let c = match content {
        Some(c) => c,
        None => {
            return false;
        },
    };
    let ls = lines(c);
    let ghost vs = text::lines_of(c@);
    for i in 0..ls.len()
        invariant
            content == Some(c),
            text::views(ls@) == vs,
            vs == text::lines_of(c@),
            forall|j: int| 0 <= j < i ==> !says_frozen(#[trigger] vs[j]),
    {
        let ws = words(ls[i]);
        let ghost wv = text::words_of(vs[i as int]);
        assert(vs[i as int] == ls@[i as int]@);
        assert(text::views(ws@) == wv);
        if ws.len() == 2 {
            assert(wv[0] == ws@[0]@ && wv[1] == ws@[1]@);
            if same_text(ws[0], "frozen") && same_text(ws[1], "1") {
                assert(wv =~= seq!["frozen"@, "1"@]);
                assert(says_frozen(vs[i as int]));
                assert(vs.len() == ls@.len());
                return true;
            }
        }
        proof {
            if says_frozen(vs[i as int]) {
                assert(wv == seq!["frozen"@, "1"@]);
                assert(wv.len() == 2 && wv[0] == "frozen"@ && wv[1] == "1"@);
            }
        }
    }
    false
}

/// Whether a process with this score is in the foreground; a frozen one is not.
pub fn is_foreground(oom_score_adj: Option<i32>, frozen: bool) -> (b: bool)
    ensures
        b == (oom_score_adj matches Some(adj) && adj <= 0 && !frozen),
{
    match oom_score_adj {
        Some(adj) => adj <= 0 && !frozen,
        None => false,
    }
}

/// Whether a process with this score is cached in the background.
pub fn is_background(oom_score_adj: Option<i32>) -> (b: bool)
    ensures
        b == (oom_score_adj matches Some(adj) && adj >= 900),
{
    match oom_score_adj {
        Some(adj) => adj >= 900,
        None => false,
    }
}

/// The CPUs on the first of `ls` that lists any.
pub open spec fn allowed_in(ls: Seq<Seq<char>>) -> Option<Set<int>>
    decreases ls.len(),
{
    if ls.len() == 0 {
        None
    } else {
        let label = "Cpus_allowed_list:"@;
        let listed = cpuset::named_cpus(text::trimmed(ls[0].skip(label.len() as int)));
        if text::has_prefix(ls[0], label) && listed != Set::<int>::empty() {
            Some(listed)
        } else {
            allowed_in(ls.drop_first())
        }
    }
}

/// The CPUs that the kernel lets a thread use, from its status: those online
/// and in every cpuset above it. `None` where none are listed, or where the
/// status could not be read.
pub fn read_allowed_cpus(content: Option<&str>) -> (out: Option<CpuSet>)
    ensures
        out.deep_view() == (match content.deep_view() {
            Some(c) => allowed_in(text::lines_of(c)),
            None => None,
        }),
{
    match content {
        Some(c) => {
            let ls = lines(c);
            let ghost vs = text::lines_of(c@);
            assert(vs.skip(0) =~= vs);
            for i in 0..ls.len()
                invariant
                    content == Some(c),
                    text::views(ls@) == vs,
                    vs == text::lines_of(c@),
                    allowed_in(vs) == allowed_in(vs.skip(i as int)),
            {
                proof {
                    assert(vs.skip(i as int)[0] == ls@[i as int]@);
                    assert(vs.skip(i as int).drop_first() =~= vs.skip(i + 1));
                }
                if let Some(rest) = strip_prefix(ls[i], "Cpus_allowed_list:") {
                    let set = parse_cpu_ranges(trim(rest), None);
                    if !set.is_empty() {
                        return Some(set);
                    }
                }
            }
            None
        },
        None => None,
    }
}

/// The fields of a thread's statistics that follow its name, from its state on.
pub open spec fn stat_fields(stat: Seq<char>) -> Seq<Seq<char>> {
    text::words_of(stat.skip(text::find(stat, seq![')']) as int + 2))
}

/// Whether a text can be taken apart as a thread's statistics: the parenthesis
/// that closes the name has a one-byte character behind it.
pub open spec fn stat_has_body(stat: Seq<char>) -> bool {
    let i = text::find(stat, seq![')']) as int;
    i < stat.len() ==> i + 1 < stat.len() && (stat[i + 1] as u32) < 0x80
}

/// User and system time in a thread's statistics, in ticks: the fields 14 and
/// 15 of the line, which are 11 and 12 when counted from the state. `None` where
/// there is no name, where fields are missing, or where one of the two is no
/// number.
pub open spec fn stat_times(stat: Seq<char>) -> Option<(nat, nat)> {
    let fields = stat_fields(stat);
    if text::find(stat, seq![')']) < stat.len() && fields.len() >= 15 {
        match (
            text::parsed_unsigned(fields[11], u64::MAX as nat),
            text::parsed_unsigned(fields[12], u64::MAX as nat),
        ) {
            (Some(u), Some(s)) => Some((u, s)),
            _ => None,
        }
    } else {
        None
    }
}

/// User and system time of a thread; see [`stat_times`].
pub fn thread_times(stat: &str) -> (out: Option<(u64, u64)>)
    requires
        stat_has_body(stat@),
    ensures
        out is Some <==> stat_times(stat@) is Some,
        out matches Some((u, s)) ==> stat_times(stat@) == Some((u as nat, s as nat)),
{
    let n = stat.unicode_len();
    match find_char(stat, ')') {
        Some(i) => {
            let rest = stat.substring_char(i + 2, n);
            assert(rest@ =~= stat@.skip(i as int + 2));
            let fields = words(rest);
            let ghost vs = stat_fields(stat@);
            assert(text::views(fields@) == vs);
            if fields.len() < 15 {
                return None;
            }
            assert(vs[11] == fields@[11]@);
            assert(vs[12] == fields@[12]@);
            let utime = parse_unsigned(fields[11], u64::MAX);
            let stime = parse_unsigned(fields[12], u64::MAX);
            match (utime, stime) {
                (Some(u), Some(s)) => Some((u, s)),
                _ => None,
            }
        },
        None => None,
    }
}

/// The CPU time of a thread in ticks, user and system time together. `None`
/// where its statistics do not give it, or could not be read.
pub fn read_thread_cpu_time(content: Option<&str>) -> (out: Option<u64>)
    requires
        content.deep_view() matches Some(c) ==> {
            &&& stat_has_body(c)
            &&& stat_times(c) matches Some((u, s)) ==> u + s <= u64::MAX
        },
    ensures
        out is Some <==> (content is Some && stat_times(content.deep_view()->0) is Some),
        out matches Some(t) ==> ({
            let (u, s) = stat_times(content.deep_view()->0)->0;
            t == u + s
        }),
{
    match content {
        Some(c) => match thread_times(c) {
            Some((u, s)) => Some(u + s),
            None => None,
        },
        None => None,
    }
}

/// Load as a share of the time that passed, in percent, rounded down.
pub open spec fn load_percent(current: u64, prev: u64, elapsed: u64) -> int {
    if current > prev {
        ((current - prev) * 100) / elapsed as int
    } else {
        0
    }
}

/// The level that stands for a load: 0 where no time has passed, else one of
/// five steps from 1 to 10.
pub open spec fn level_of(current: u64, prev: u64, elapsed: u64) -> int {
    let p = load_percent(current, prev, elapsed);
    if elapsed == 0 {
        0
    } else if p <= 5 {
        1
    } else if p <= 15 {
        3
    } else if p <= 35 {
        5
    } else if p <= 60 {
        7
    } else {
        10
    }
}

/// Load of a thread, from 0 (nothing known) to 10: `current` and `prev` are its
/// CPU time now and at the last sample, `elapsed` the time between the two.
pub fn load_level(current_cpu_ticks: u64, prev_cpu_ticks: u64, elapsed_ticks: u64) -> (level: i32)
    requires
        elapsed_ticks > 0 ==> (current_cpu_ticks - prev_cpu_ticks) * 100 <= u64::MAX,
    ensures
        level == level_of(current_cpu_ticks, prev_cpu_ticks, elapsed_ticks),
{
    if elapsed_ticks == 0 {
        return 0;
    }
    let delta: u64 = if current_cpu_ticks > prev_cpu_ticks {
        current_cpu_ticks - prev_cpu_ticks
    } else {
        0
    };
    let ratio = (delta * 100) / elapsed_ticks;
    if ratio <= 5 {
        1
    } else if ratio <= 15 {
        3
    } else if ratio <= 35 {
        5
    } else if ratio <= 60 {
        7
    } else {
        10
    }
}

/// A level is between 0 and 10, and 0 only where no time has passed.
pub proof fn law_load_levels_are_bounded(current: u64, prev: u64, elapsed: u64)
    ensures
        0 <= level_of(current, prev, elapsed) <= 10,
        level_of(current, prev, elapsed) == 0 <==> elapsed == 0,
{
}

/// `x / e` rounded down is below `b` exactly where `x` is below `b` times `e`.
proof fn lemma_share_below(x: int, e: int, b: int)
    requires
        e > 0,
    ensures
        x / e < b <==> x < b * e,
{
    vstd::arithmetic::div_mod::lemma_fundamental_div_mod(x, e);
    let q = x / e;
    let r = x % e;
    assert(0 <= r < e);
    assert(x == e * q + r);
    if q < b {
        assert(e * q + r < b * e) by (nonlinear_arith)
            requires
                q + 1 <= b,
                0 <= r < e,
                e > 0,
        ;
    } else {
        assert(e * q + r >= b * e) by (nonlinear_arith)
            requires
                q >= b,
                0 <= r < e,
                e > 0,
        ;
    }
}

/// The level tells which share of the window a thread has run for: level 1 below
/// 6 percent, 3 below 16, 5 below 36, 7 below 61, and 10 from there on. A thread
/// whose time did not grow has not run.
pub proof fn law_levels_are_shares_of_the_window(current: u64, prev: u64, elapsed: u64)
    requires
        elapsed > 0,
    ensures
        ({
            let level = level_of(current, prev, elapsed);
            let ran = current - prev;
            &&& level == 1 <==> 100 * ran < 6 * elapsed
            &&& level == 3 <==> 6 * elapsed <= 100 * ran < 16 * elapsed
            &&& level == 5 <==> 16 * elapsed <= 100 * ran < 36 * elapsed
            &&& level == 7 <==> 36 * elapsed <= 100 * ran < 61 * elapsed
            &&& level == 10 <==> 61 * elapsed <= 100 * ran
        }),
{
    let x = (current - prev) * 100;
    let e = elapsed as int;
    if current > prev {
        lemma_share_below(x, e, 6);
        lemma_share_below(x, e, 16);
        lemma_share_below(x, e, 36);
        lemma_share_below(x, e, 61);
    }
}

/// More CPU time in the same window never gives a lower level.
pub proof fn law_load_levels_grow_with_time(less: u64, more: u64, prev: u64, elapsed: u64)
    requires
        less <= more,
    ensures
        level_of(less, prev, elapsed) <= level_of(more, prev, elapsed),
{
    if elapsed > 0 {
        if less > prev {
            vstd::arithmetic::div_mod::lemma_div_is_ordered(
                (less - prev) * 100,
                (more - prev) * 100,
                elapsed as int,
            );
        } else if more > prev {
            vstd::arithmetic::div_mod::lemma_div_pos_is_pos((more - prev) * 100, elapsed as int);
        }
    }
}

// ---------------------------------------------------------------------------
// Processes that no rule names
// ---------------------------------------------------------------------------

/// One process, as far as it was read. What was not read, because something
/// before it already ruled the process out, is `None`.
pub struct ProcReading {
    /// Name of its directory.
    pub name: String,
    /// Its command line.
    pub cmdline: Option<String>,
    /// Whether a wildcard rule matches its package.
    pub wildcard: bool,
    /// Its status.
    pub status: Option<String>,
    /// Name and, where it could be read, thread name of each of its threads.
    pub tasks: Vec<(String, Option<String>)>,
}

/// A process that no rule names.
pub struct UnknownProc {
    /// Its id.
    pub pid: i32,
    /// Its package.
    pub pkg: String,
    /// Its threads, each with its name.
    pub threads: Vec<(i32, String)>,
}

/// The process id that a directory's name gives, where it is one of an app.
pub open spec fn app_pid(name: Seq<char>) -> Option<int> {
    match text::parsed_i32(name) {
        Some(p) if p >= MIN_USER_PID => Some(p),
        _ => None,
    }
}

/// Whether `pkg` looks like the package of an app: with a dot, and no path.
pub open spec fn is_app_package(pkg: Seq<char>) -> bool {
    &&& pkg.len() > 0
    &&& !pkg.contains('/')
    &&& pkg.contains('.')
}

/// The user id that a status gives: the second word of its first `Uid:` line.
pub open spec fn status_uid(ls: Seq<Seq<char>>) -> Option<nat>
    decreases ls.len(),
{
    if ls.len() == 0 {
        None
    } else if text::has_prefix(ls[0], "Uid:"@) {
        let ws = text::words_of(ls[0]);
        if ws.len() > 1 {
            text::parsed_unsigned(ws[1], u32::MAX as nat)
        } else {
            None
        }
    } else {
        status_uid(ls.drop_first())
    }
}

/// Whether a status is that of an app.
pub open spec fn is_app_status(status: Seq<char>) -> bool {
    status_uid(text::lines_of(status)) matches Some(uid) && uid >= MIN_APP_UID
}

/// The id of one thread, 0 where its directory's name is no number.
pub open spec fn tid_or_zero(name: Seq<char>) -> int {
    match text::parsed_i32(name) {
        Some(t) => t,
        None => 0,
    }
}

/// The process id that a directory's name gives, where it is one of an app.
pub fn scan_pid(name: &str) -> (out: Option<i32>)
    ensures
        out is Some <==> app_pid(name@) is Some,
        out matches Some(p) ==> app_pid(name@) == Some(p as int),
{
    match parse_i32(name) {
        Some(p) => if p >= MIN_USER_PID {
            Some(p)
        } else {
            None
        },
        None => None,
    }
}

/// The package in a command line, where it looks like an app's and is not in
/// `known`.
pub open spec fn unknown_package(
    cmdline: Option<Seq<char>>,
    known: Seq<Seq<char>>,
) -> Option<Seq<char>> {
    match cmdline {
        Some(c) if is_app_package(package_of(c)) && !known.contains(package_of(c)) => Some(
            package_of(c),
        ),
        _ => None,
    }
}

/// The package in a command line, where it looks like an app's and is not in
/// `known`.
pub fn scan_package(cmdline: Option<&str>, known: &Vec<String>) -> (out: Option<String>)
    ensures
        out.deep_view() == unknown_package(cmdline.deep_view(), text::string_views(known@)),
{
    match cmdline {
        Some(c) => {
            let pkg = package_name(c);
            let p = pkg.as_str();
            if p.is_empty() || contains_char(p, '/') || !contains_char(p, '.') {
                return None;
            }
            if contains_text(known, p) {
                None
            } else {
                Some(pkg)
            }
        },
        None => None,
    }
}

/// Whether a status is that of an app; one that could not be read is not.
pub fn is_user_process(status: Option<&str>) -> (b: bool)
    ensures
        b == (status.deep_view() matches Some(s) && is_app_status(s)),
{
    match status {
        Some(s) => {
            let ls = lines(s);
            let ghost vs = text::lines_of(s@);
            assert(vs.skip(0) =~= vs);
            for i in 0..ls.len()
                invariant
                    status == Some(s),
                    text::views(ls@) == vs,
                    vs == text::lines_of(s@),
                    status_uid(vs) == status_uid(vs.skip(i as int)),
            {
                proof {
                    assert(vs.skip(i as int)[0] == ls@[i as int]@);
                    assert(vs.skip(i as int).drop_first() =~= vs.skip(i + 1));
                }
                if starts_with(ls[i], "Uid:") {
                    let ws = words(ls[i]);
                    let ghost wv = text::words_of(ls@[i as int]@);
                    assert(text::views(ws@) == wv);
                    if ws.len() > 1 {
                        assert(wv[1] == ws@[1]@);
                        return match parse_unsigned(ws[1], u32::MAX as u64) {
                            Some(uid) => uid >= MIN_APP_UID,
                            None => false,
                        };
                    }
                    return false;
                }
            }
            false
        },
        None => false,
    }
}

impl ProcReading {
    /// Whether the process is an app's that no rule names, with threads to show.
    pub open spec fn is_unknown(&self, known: Seq<Seq<char>>) -> bool {
        &&& app_pid(self.name@) is Some
        &&& unknown_package(self.cmdline.deep_view(), known) is Some
        &&& !self.wildcard
        &&& self.status.deep_view() matches Some(s) && is_app_status(s)
        &&& self.tasks@.len() > 0
    }

    /// Whether `proc` says what this reading says.
    pub open spec fn is_shown_by(&self, proc: UnknownProc) -> bool {
        &&& app_pid(self.name@) == Some(proc.pid as int)
        &&& self.cmdline.deep_view() is Some
        &&& proc.pkg@ == package_of(self.cmdline.deep_view()->0)
        &&& proc.threads@.len() == self.tasks@.len()
        &&& forall|i: int|
            #![trigger proc.threads@[i]]
            0 <= i < self.tasks@.len() ==> {
                &&& proc.threads@[i].0 == tid_or_zero(self.tasks@[i].0@)
                &&& proc.threads@[i].1@ == topology::trimmed_or_empty(
                    self.tasks@[i].1.deep_view(),
                )
            }
    }

    /// The process, where no rule names it.
    fn show(&self, known: &Vec<String>) -> (out: Option<UnknownProc>)
        ensures
            out is Some <==> self.is_unknown(text::string_views(known@)),
            out matches Some(proc) ==> self.is_shown_by(proc),
    {
        let pid = match scan_pid(self.name.as_str()) {
            Some(p) => p,
            None => {
                return None;
            },
        };
        let cmdline = match &self.cmdline {
            Some(c) => Some(c.as_str()),
            None => None,
        };
        let pkg = match scan_package(cmdline, known) {
            Some(p) => p,
            None => {
                return None;
            },
        };
        let status = match &self.status {
            Some(s) => Some(s.as_str()),
            None => None,
        };
        if self.wildcard || !is_user_process(status) {
            return None;
        }
        let mut threads: Vec<(i32, String)> = Vec::new();
        for i in 0..self.tasks.len()
            invariant
                threads@.len() == i,
                forall|j: int|
                    #![trigger threads@[j]]
                    0 <= j < i ==> {
                        &&& threads@[j].0 == tid_or_zero(self.tasks@[j].0@)
                        &&& threads@[j].1@ == topology::trimmed_or_empty(
                            self.tasks@[j].1.deep_view(),
                        )
                    },
        {
            let task = &self.tasks[i];
            let tid = match parse_i32(task.0.as_str()) {
                Some(t) => t,
                None => 0,
            };
            let comm = match &task.1 {
                Some(c) => trim(c.as_str()).to_owned(),
                None => String::new(),
            };
            threads.push((tid, comm));
        }
        if threads.len() == 0 {
            None
        } else {
            Some(UnknownProc { pid, pkg, threads })
        }
    }
}

/// Positions of the readings that [`scan_unknown`] shows, in ascending order.
pub open spec fn unknown_at(readings: Seq<ProcReading>, known: Seq<Seq<char>>) -> Seq<int>
    decreases readings.len(),
{
    if readings.len() == 0 {
        seq![]
    } else {
        let init = unknown_at(readings.drop_last(), known);
        if readings.last().is_unknown(known) {
            init.push(readings.len() - 1)
        } else {
            init
        }
    }
}

/// Whether `out` shows the readings at the positions `at`, one for one.
pub open spec fn are_shown_by(
    readings: Seq<ProcReading>,
    at: Seq<int>,
    out: Seq<UnknownProc>,
) -> bool {
    &&& out.len() == at.len()
    &&& forall|i: int| 0 <= i < at.len() ==> 0 <= #[trigger] at[i] < readings.len()
    &&& forall|i: int| 0 <= i < at.len() ==> readings[at[i]].is_shown_by(#[trigger] out[i])
}

/// The app processes among `readings` that no rule names, in their order. `known`
/// holds the packages with a rule of their own.
pub fn scan_unknown(readings: &Vec<ProcReading>, known: &Vec<String>) -> (out: Vec<UnknownProc>)
    ensures
        are_shown_by(readings@, unknown_at(readings@, text::string_views(known@)), out@),
{
    let ghost vs = text::string_views(known@);
    let mut out: Vec<UnknownProc> = Vec::new();
    for n in 0..readings.len()
        invariant
            vs == text::string_views(known@),
            are_shown_by(readings@, unknown_at(readings@.take(n as int), vs), out@),
    {
        let ghost at = unknown_at(readings@.take(n as int), vs);
        let ghost before = out@;
        proof {
            assert(readings@.take(n + 1).drop_last() =~= readings@.take(n as int));
            assert(readings@.take(n + 1).last() == readings@[n as int]);
        }
        if let Some(proc) = readings[n].show(known) {
            out.push(proc);
            proof {
                let next = at.push(n as int);
                assert(unknown_at(readings@.take(n + 1), vs) == next);
                assert forall|i: int| 0 <= i < next.len() implies readings@[next[i]].is_shown_by(
                    #[trigger] out@[i],
                ) by {
                    if i < at.len() {
                        assert(out@[i] == before[i]);
                    }
                }
            }
        } else {
            assert(unknown_at(readings@.take(n + 1), vs) == at);
        }
    }
    assert(readings@.take(readings@.len() as int) =~= readings@);
    out
}

// ---------------------------------------------------------------------------
// Laws
// ---------------------------------------------------------------------------

/// A package name ends at the first NUL, wherever that stands, and at the end where
/// there is none.
pub proof fn law_packages_end_at_the_first_nul(name: Seq<char>, rest: Seq<char>)
    requires
        forall|i: int| 0 <= i < name.len() ==> #[trigger] name[i] != '\0',
    ensures
        package_of(name + seq!['\0'] + rest) == name,
        package_of(name) == name,
{
    let nul = seq!['\0'];
    let s = name + nul + rest;
    assert(nul[0] == '\0');
    assert forall|j: int| 0 <= j < name.len() implies !nul.contains(#[trigger] s[j]) by {
        assert(s[j] == name[j]);
    }
    assert(s[name.len() as int] == '\0');
    text::lemma_find_is(s, nul, name.len());
    assert(s.take(name.len() as int) =~= name);
    assert forall|j: int| 0 <= j < name.len() implies !nul.contains(#[trigger] name[j]) by {
        assert(name[j] != '\0');
    }
    text::lemma_find_is(name, nul, name.len());
    assert(name.take(name.len() as int) =~= name);
}

/// The thread ids among two lists of names are those of the one and then those of the
/// other; a single name gives the number that it writes, or nothing.
pub proof fn law_thread_ids_add_up(a: Seq<Seq<char>>, b: Seq<Seq<char>>, name: Seq<char>)
    ensures
        numbers_in(a + b) == numbers_in(a) + numbers_in(b),
        numbers_in(seq![name]) == (match text::parsed_i32(name) {
            Some(n) => seq![n],
            None => seq![],
        }),
    decreases b.len(),
{
    let one = seq![name];
    assert(one.drop_last() =~= Seq::<Seq<char>>::empty());
    assert(numbers_in(one.drop_last()) =~= Seq::<int>::empty());
    assert(one.last() == name);
    if let Some(n) = text::parsed_i32(name) {
        assert(numbers_in(one) =~= seq![n]);
    } else {
        assert(numbers_in(one) =~= Seq::<int>::empty());
    }
    if b.len() == 0 {
        assert(a + b =~= a);
        assert(numbers_in(a) + numbers_in(b) =~= numbers_in(a));
    } else {
        law_thread_ids_add_up(a, b.drop_last(), name);
        assert((a + b).drop_last() =~= a + b.drop_last());
        assert((a + b).last() == b.last());
        assert(numbers_in(a + b) =~= numbers_in(a) + numbers_in(b));
    }
}

/// The CPUs behind the label of line `l`, where it has that label.
pub open spec fn labelled_cpus(l: Seq<char>) -> Set<int> {
    if text::has_prefix(l, "Cpus_allowed_list:"@) {
        cpuset::named_cpus(text::trimmed(l.skip(18)))
    } else {
        Set::empty()
    }
}

/// The allowed CPUs are those of the first line with the label that lists any, and
/// there are none exactly where no line does.
pub proof fn law_the_first_list_of_allowed_cpus_counts(ls: Seq<Seq<char>>)
    ensures
        allowed_in(ls) is None <==> forall|i: int|
            0 <= i < ls.len() ==> labelled_cpus(#[trigger] ls[i]) == Set::<int>::empty(),
        allowed_in(ls) matches Some(v) ==> exists|i: int|
            0 <= i < ls.len() && labelled_cpus(#[trigger] ls[i]) == v && v != Set::<int>::empty()
                && forall|j: int|
                0 <= j < i ==> labelled_cpus(#[trigger] ls[j]) == Set::<int>::empty(),
    decreases ls.len(),
{
    reveal_strlit("Cpus_allowed_list:");
    if ls.len() > 0 {
        let rest = ls.drop_first();
        law_the_first_list_of_allowed_cpus_counts(rest);
        assert(forall|i: int| 0 <= i < rest.len() ==> #[trigger] rest[i] == ls[i + 1]);
        if labelled_cpus(ls[0]) == Set::<int>::empty() {
            if let Some(v) = allowed_in(rest) {
                let i = choose|i: int|
                    0 <= i < rest.len() && labelled_cpus(#[trigger] rest[i]) == v && v != Set::<
                        int,
                    >::empty() && forall|j: int|
                        0 <= j < i ==> labelled_cpus(#[trigger] rest[j]) == Set::<int>::empty();
                assert(labelled_cpus(ls[i + 1]) == v);
                assert forall|j: int| 0 <= j < i + 1 implies labelled_cpus(#[trigger] ls[j])
                    == Set::<int>::empty() by {
                    if j > 0 {
                        assert(rest[j - 1] == ls[j]);
                    }
                }
            } else {
                assert forall|i: int| 0 <= i < ls.len() implies labelled_cpus(#[trigger] ls[i])
                    == Set::<int>::empty() by {
                    if i > 0 {
                        assert(rest[i - 1] == ls[i]);
                    }
                }
            }
        } else {
            assert(labelled_cpus(ls[0]) == allowed_in(ls)->0);
        }
    }
}

/// User and system time are the twelfth and thirteenth word behind the name and the
/// character that follows it, which are the fields 14 and 15 of the line: the name ends
/// at the first closing parenthesis, and the words are counted from the state on. With
/// fewer than fifteen words behind the name there are none, and neither without a name.
pub proof fn law_times_are_fields_of_the_line(
    name: Seq<char>,
    sep: char,
    rest: Seq<char>,
    user: nat,
    system: nat,
)
    requires
        forall|i: int| 0 <= i < name.len() ==> #[trigger] name[i] != ')',
    ensures
        ({
            let stat = name + seq![')', sep] + rest;
            let ws = text::words_of(rest);
            &&& ws.len() >= 15 && user <= u64::MAX && system <= u64::MAX && ws[11]
                == text::decimal_text(user) && ws[12] == text::decimal_text(system) ==> stat_times(
                stat,
            ) == Some((user, system))
            &&& ws.len() < 15 ==> stat_times(stat) is None
            &&& ws.len() >= 15 && (text::parsed_unsigned(ws[11], u64::MAX as nat) is None
                || text::parsed_unsigned(ws[12], u64::MAX as nat) is None) ==> stat_times(
                stat,
            ) is None
        }),
        stat_times(name) is None,
{
    let close = seq![')'];
    let stat = name + seq![')', sep] + rest;
    assert(close[0] == ')');
    assert forall|j: int| 0 <= j < name.len() implies !close.contains(#[trigger] stat[j]) by {
        assert(stat[j] == name[j]);
    }
    assert(stat[name.len() as int] == ')');
    text::lemma_find_is(stat, close, name.len());
    assert(stat.skip(name.len() as int + 2) =~= rest);
    text::lemma_decimal_round_trip(user);
    text::lemma_decimal_round_trip(system);
    assert forall|j: int| 0 <= j < name.len() implies !close.contains(#[trigger] name[j]) by {
        assert(name[j] != ')');
    }
    text::lemma_find_is(name, close, name.len());
}

/// The user of a process is the second word of the first line that starts with `Uid:`,
/// and an app's where that is a number of ten thousand or more.
pub proof fn law_the_first_user_line_counts(ls: Seq<Seq<char>>, i: int, uid: nat)
    requires
        0 <= i < ls.len(),
        text::has_prefix(ls[i], seq!['U', 'i', 'd', ':']),
        forall|j: int|
            0 <= j < i ==> !text::has_prefix(#[trigger] ls[j], seq!['U', 'i', 'd', ':']),
    ensures
        text::words_of(ls[i]).len() > 1 && text::words_of(ls[i])[1] == text::decimal_text(uid)
            && uid <= u32::MAX ==> status_uid(ls) == Some(uid),
        text::words_of(ls[i]).len() <= 1 ==> status_uid(ls) is None,
        forall|status: Seq<char>| #[trigger]
            text::lines_of(status) == ls ==> is_app_status(status) == (status_uid(ls) is Some
                && status_uid(ls)->0 >= 10000),
    decreases ls.len(),
{
    reveal_strlit("Uid:");
    assert("Uid:"@ =~= seq!['U', 'i', 'd', ':']);
    text::lemma_decimal_round_trip(uid);
    if i > 0 {
        assert(!text::has_prefix(ls[0], "Uid:"@));
        let rest = ls.drop_first();
        assert(rest[i - 1] == ls[i]);
        assert forall|j: int| 0 <= j < i - 1 implies !text::has_prefix(
            #[trigger] rest[j],
            seq!['U', 'i', 'd', ':'],
        ) by {
            assert(rest[j] == ls[j + 1]);
        }
        law_the_first_user_line_counts(rest, i - 1, uid);
    }
}

/// A status without a line of users is no app's.
pub proof fn law_without_a_user_there_is_no_app(ls: Seq<Seq<char>>)
    requires
        forall|j: int|
            0 <= j < ls.len() ==> !text::has_prefix(#[trigger] ls[j], seq!['U', 'i', 'd', ':']),
    ensures
        status_uid(ls) is None,
    decreases ls.len(),
{
    reveal_strlit("Uid:");
    assert("Uid:"@ =~= seq!['U', 'i', 'd', ':']);
    if ls.len() > 0 {
        assert(!text::has_prefix(ls[0], "Uid:"@));
        let rest = ls.drop_first();
        assert forall|j: int| 0 <= j < rest.len() implies !text::has_prefix(
            #[trigger] rest[j],
            seq!['U', 'i', 'd', ':'],
        ) by {
            assert(rest[j] == ls[j + 1]);
        }
        law_without_a_user_there_is_no_app(rest);
    }
}

/// The processes that are shown are exactly those whose directory writes a number of a
/// thousand or more, whose package has a dot and no slash, is not among the known ones
/// and matches no wildcard, whose status is an app's, and that have threads. They are
/// shown in their order, each once.
pub proof fn law_unknown_apps_are_shown(readings: Seq<ProcReading>, known: Seq<Seq<char>>)
    ensures
        forall|i: int|
            unknown_at(readings, known).contains(i) <==> 0 <= i < readings.len() && {
                let r = readings[i];
                let pkg = package_of(r.cmdline.deep_view()->0);
                &&& text::parsed_i32(r.name@) is Some && text::parsed_i32(r.name@)->0 >= 1000
                &&& r.cmdline is Some
                &&& (exists|a: int| 0 <= a < pkg.len() && #[trigger] pkg[a] == '.')
                &&& !(exists|a: int| 0 <= a < pkg.len() && #[trigger] pkg[a] == '/')
                &&& !(exists|a: int| 0 <= a < known.len() && #[trigger] known[a] == pkg)
                &&& !r.wildcard
                &&& r.status is Some && is_app_status(r.status.deep_view()->0)
                &&& r.tasks@.len() > 0
            },
        forall|a: int, b: int|
            0 <= a < b < unknown_at(readings, known).len() ==> #[trigger] unknown_at(
                readings,
                known,
            )[a] < #[trigger] unknown_at(readings, known)[b],
    decreases readings.len(),
{
    if readings.len() > 0 {
        let rest = readings.drop_last();
        let p = unknown_at(rest, known);
        let q = unknown_at(readings, known);
        let n = readings.len() - 1;
        law_unknown_apps_are_shown(rest, known);
        lemma_positions_are_below(rest, known);
        assert(readings.last() == readings[n]);
        lemma_is_unknown(readings[n], known);
        assert(forall|i: int| 0 <= i < rest.len() ==> #[trigger] rest[i] == readings[i]);
        assert forall|i: int| q.contains(i) <==> p.contains(i) || (i == n
            && readings[n].is_unknown(known)) by {
            if readings[n].is_unknown(known) {
                vstd::seq_lib::lemma_seq_contains_after_push(p, n, i);
            }
        }
        assert forall|i: int| p.contains(i) implies i < n by {
            if p.contains(i) {
                assert(p[p.index_of(i)] == i);
            }
        }
    }
}

/// Positions that are shown are positions.
proof fn lemma_positions_are_below(readings: Seq<ProcReading>, known: Seq<Seq<char>>)
    ensures
        forall|a: int|
            0 <= a < unknown_at(readings, known).len() ==> (#[trigger] unknown_at(
                readings,
                known,
            )[a]) < readings.len(),
    decreases readings.len(),
{
    if readings.len() > 0 {
        let rest = readings.drop_last();
        let p = unknown_at(rest, known);
        let q = unknown_at(readings, known);
        lemma_positions_are_below(rest, known);
        assert forall|a: int| 0 <= a < q.len() implies (#[trigger] q[a]) < readings.len() by {
            if a < p.len() {
                assert(q[a] == p[a]);
            }
        }
    }
}

/// What it takes for one process to be shown.
proof fn lemma_is_unknown(r: ProcReading, known: Seq<Seq<char>>)
    ensures
        r.is_unknown(known) <==> {
            let pkg = package_of(r.cmdline.deep_view()->0);
            &&& text::parsed_i32(r.name@) is Some && text::parsed_i32(r.name@)->0 >= 1000
            &&& r.cmdline is Some
            &&& (exists|a: int| 0 <= a < pkg.len() && #[trigger] pkg[a] == '.')
            &&& !(exists|a: int| 0 <= a < pkg.len() && #[trigger] pkg[a] == '/')
            &&& !(exists|a: int| 0 <= a < known.len() && #[trigger] known[a] == pkg)
            &&& !r.wildcard
            &&& r.status is Some && is_app_status(r.status.deep_view()->0)
            &&& r.tasks@.len() > 0
        },
{
    let pkg = package_of(r.cmdline.deep_view()->0);
    assert(pkg.contains('.') <==> exists|a: int| 0 <= a < pkg.len() && #[trigger] pkg[a] == '.');
    assert(pkg.contains('/') <==> exists|a: int| 0 <= a < pkg.len() && #[trigger] pkg[a] == '/');
    assert(known.contains(pkg) <==> exists|a: int|
        0 <= a < known.len() && #[trigger] known[a] == pkg);
}

/// What is shown of a process: its number, its package, and for each of its threads
/// the number, zero where its directory writes none, and the name without white space
/// around it, empty where it could not be read.
pub proof fn law_shown_processes_say_what_was_read(r: ProcReading, proc: UnknownProc, i: int)
    requires
        r.is_shown_by(proc),
        0 <= i < r.tasks@.len(),
    ensures
        text::parsed_i32(r.name@) == Some(proc.pid as int),
        proc.pkg@ == package_of(r.cmdline.deep_view()->0),
        proc.threads@.len() == r.tasks@.len(),
        proc.threads@[i].0 == (match text::parsed_i32(r.tasks@[i].0@) {
            Some(t) => t,
            None => 0,
        }),
        proc.threads@[i].1@ == (match r.tasks@[i].1 {
            Some(c) => text::trimmed(c@),
            None => seq![],
        }),
{
    assert(proc.threads@[i].0 == tid_or_zero(r.tasks@[i].0@));
}

/// The control group is the one on the first line that starts with `0::`.
pub proof fn law_the_first_unified_group_counts(ls: Seq<Seq<char>>, i: int, group: Seq<char>)
    requires
        0 <= i < ls.len(),
        ls[i] == seq!['0', ':', ':'] + group,
        forall|j: int| 0 <= j < i ==> !text::has_prefix(#[trigger] ls[j], seq!['0', ':', ':']),
    ensures
        cgroup_in(ls) == Some(group),
    decreases ls.len(),
{
    reveal_strlit("0::");
    assert("0::"@ =~= seq!['0', ':', ':']);
    if i == 0 {
        text::law_prefixes_and_suffixes_are_parts(seq!['0', ':', ':'], group, group);
        assert(ls[0].skip(3) =~= group);
    } else {
        assert(!text::has_prefix(ls[0], "0::"@));
        let rest = ls.drop_first();
        assert(rest[i - 1] == ls[i]);
        assert forall|j: int| 0 <= j < i - 1 implies !text::has_prefix(
            #[trigger] rest[j],
            seq!['0', ':', ':'],
        ) by {
            assert(rest[j] == ls[j + 1]);
        }
        law_the_first_unified_group_counts(rest, i - 1, group);
    }
}

/// A process is frozen exactly where some line of its control group's events has just
/// the words `frozen` and `1`, wherever it stands.
pub proof fn law_any_line_can_say_frozen(ls: Seq<Seq<char>>)
    ensures
        some_says_frozen(ls) <==> exists|j: int|
            0 <= j < ls.len() && {
                let ws = text::words_of(#[trigger] ls[j]);
                ws.len() == 2 && ws[0] == seq!['f', 'r', 'o', 'z', 'e', 'n'] && ws[1] == seq!['1']
            },
{
    reveal_strlit("frozen");
    reveal_strlit("1");
    assert("frozen"@ =~= seq!['f', 'r', 'o', 'z', 'e', 'n']);
    assert("1"@ =~= seq!['1']);
    assert forall|j: int| 0 <= j < ls.len() implies says_frozen(#[trigger] ls[j]) == ({
        let ws = text::words_of(ls[j]);
        ws.len() == 2 && ws[0] == seq!['f', 'r', 'o', 'z', 'e', 'n'] && ws[1] == seq!['1']
    }) by {
        let ws = text::words_of(ls[j]);
        if ws.len() == 2 && ws[0] == "frozen"@ && ws[1] == "1"@ {
            assert(ws =~= seq!["frozen"@, "1"@]);
        }
    }
    if some_says_frozen(ls) {
        let j = choose|j: int| 0 <= j < ls.len() && says_frozen(#[trigger] ls[j]);
        assert(text::words_of(ls[j]).len() == 2);
    }
}

/// A process is in the foreground where its score is zero or less and it is not frozen,
/// and cached in the background where its score is 900 or more; so it is never both, and
/// neither where its score could not be read.
pub proof fn law_no_process_is_in_both_grounds(
    oom_score_adj: Option<i32>,
    frozen: bool,
    front: bool,
    back: bool,
)
    requires
        call_ensures(is_foreground, (oom_score_adj, frozen), front),
        call_ensures(is_background, (oom_score_adj,), back),
    ensures
        front <==> oom_score_adj is Some && oom_score_adj->0 <= 0 && !frozen,
        back <==> oom_score_adj is Some && oom_score_adj->0 >= 900,
        !(front && back),
{
}

/// The package of a process is what its command line holds up to the first NUL, and
/// the name of a thread what its file holds without white space around it; neither is
/// ever empty.
pub proof fn law_names_are_never_empty(
    content: Option<&str>,
    pkg: Option<String>,
    comm: Option<String>,
)
    requires
        call_ensures(read_cmdline, (content,), pkg),
        call_ensures(tid_comm, (content,), comm),
    ensures
        pkg is Some <==> content is Some && content->0@.len() > 0 && content->0@[0] != '\0',
        pkg is Some ==> pkg->0@ == package_of(content->0@) && pkg->0@.len() > 0,
        comm is Some <==> content is Some && text::trimmed(content->0@).len() > 0,
        comm is Some ==> comm->0@ == text::trimmed(content->0@),
{
    if let Some(c) = content {
        let nul = seq!['\0'];
        assert(nul[0] == '\0');
        text::lemma_find(c@, nul);
        assert(content.deep_view() == Some(c@));
        if c@.len() > 0 && text::find(c@, nul) == 0 {
            assert(nul.contains(c@[0]));
        }
    }
    if pkg is Some {
        assert(pkg.deep_view() == Some(pkg->0@));
    }
    if comm is Some {
        assert(comm.deep_view() == Some(comm->0@));
    }
}

/// The CPU time of a thread is the sum of the two times in its statistics, and is given
/// exactly where both are.
pub proof fn law_cpu_time_is_the_sum_of_both_times(content: Option<&str>, out: Option<u64>)
    requires
        call_ensures(read_thread_cpu_time, (content,), out),
    ensures
        out is Some <==> content is Some && stat_times(content->0@) is Some,
        out is Some ==> ({
            let (user, system) = stat_times(content->0@)->0;
            out->0 == user + system
        }),
{
    if let Some(c) = content {
        assert(content.deep_view() == Some(c@));
    }
}

/// What is shown are the unknown apps among the readings, in their order and each once,
/// and of each what was read.
pub proof fn law_unknown_apps_are_shown_in_order(
    readings: &Vec<ProcReading>,
    known: &Vec<String>,
    out: Vec<UnknownProc>,
    i: int,
)
    requires
        call_ensures(scan_unknown, (readings, known), out),
        0 <= i < out@.len(),
    ensures
        ({
            let at = unknown_at(readings@, text::string_views(known@));
            &&& out@.len() == at.len()
            &&& 0 <= at[i] < readings@.len()
            &&& text::parsed_i32(readings@[at[i]].name@) == Some(out@[i].pid as int)
            &&& out@[i].pkg@ == package_of(readings@[at[i]].cmdline.deep_view()->0)
            &&& out@[i].threads@.len() == readings@[at[i]].tasks@.len()
        }),
{
    let at = unknown_at(readings@, text::string_views(known@));
    assert(at[i] < readings@.len());
    assert(readings@[at[i]].is_shown_by(out@[i]));
}

/// The parts of a scan agree with the whole: a process is an app's by its directory, its
/// command line and its status, each on its own.
pub proof fn law_scans_test_directory_package_and_user(
    name: &str,
    pid: Option<i32>,
    cmdline: Option<&str>,
    known: &Vec<String>,
    pkg: Option<String>,
    status: Option<&str>,
    user: bool,
)
    requires
        call_ensures(scan_pid, (name,), pid),
        call_ensures(scan_package, (cmdline, known), pkg),
        call_ensures(is_user_process, (status,), user),
    ensures
        pid is Some <==> text::parsed_i32(name@) is Some && text::parsed_i32(name@)->0 >= 1000,
        pid is Some ==> text::parsed_i32(name@) == Some(pid->0 as int),
        pkg is Some <==> cmdline is Some && ({
            let p = package_of(cmdline->0@);
            &&& (exists|a: int| 0 <= a < p.len() && #[trigger] p[a] == '.')
            &&& !(exists|a: int| 0 <= a < p.len() && #[trigger] p[a] == '/')
            &&& !(exists|a: int| 0 <= a < known@.len() && (#[trigger] known@[a])@ == p)
        }),
        pkg is Some ==> pkg->0@ == package_of(cmdline->0@),
        user <==> status is Some && is_app_status(status->0@),
{
    if let Some(c) = cmdline {
        assert(cmdline.deep_view() == Some(c@));
        let p = package_of(c@);
        let v = text::string_views(known@);
        assert(forall|a: int| 0 <= a < known@.len() ==> #[trigger] v[a] == known@[a]@);
        assert(p.contains('.') <==> exists|a: int| 0 <= a < p.len() && #[trigger] p[a] == '.');
        assert(p.contains('/') <==> exists|a: int| 0 <= a < p.len() && #[trigger] p[a] == '/');
        if v.contains(p) {
            let a = v.index_of(p);
            assert(v[a] == p);
            assert(known@[a]@ == p);
        }
        if exists|a: int| 0 <= a < known@.len() && (#[trigger] known@[a])@ == p {
            let a = choose|a: int| 0 <= a < known@.len() && (#[trigger] known@[a])@ == p;
            assert(v[a] == p);
        }
    }
    if pkg is Some {
        assert(pkg.deep_view() == Some(pkg->0@));
    }
    if let Some(s) = status {
        assert(status.deep_view() == Some(s@));
    }
}

/// The events of a process's control group are a file in the directory of that group,
/// which is the one on the first line of the unified hierarchy. Without such a line, and
/// without a text, there is no such file.
pub proof fn law_group_events_lie_in_the_group(
    content: Option<&str>,
    out: Option<String>,
    i: int,
    group: Seq<char>,
)
    requires
        call_ensures(cgroup_events_path, (content,), out),
    ensures
        ({
            let ls = text::lines_of(content->0@);
            let unified = seq!['0', ':', ':'];
            &&& out is Some <==> content is Some && exists|j: int|
                0 <= j < ls.len() && text::has_prefix(#[trigger] ls[j], unified)
            &&& content is Some && 0 <= i < ls.len() && ls[i] == unified + group && (forall|j: int|
                0 <= j < i ==> !text::has_prefix(#[trigger] ls[j], unified)) ==> out is Some
                && out->0@ == "/sys/fs/cgroup"@ + group + "/cgroup.events"@
        }),
{
    if content is Some {
        let ls = text::lines_of(content->0@);
        let unified = seq!['0', ':', ':'];
        assert(content.deep_view() == Some(content->0@));
        lemma_group_is_on_a_line(ls);
        if 0 <= i < ls.len() && ls[i] == unified + group && (forall|j: int|
            0 <= j < i ==> !text::has_prefix(#[trigger] ls[j], unified)) {
            law_the_first_unified_group_counts(ls, i, group);
        }
    }
    if out is Some {
        assert(out.deep_view() == Some(out->0@));
    }
}

/// There is a control group exactly where a line starts with `0::`.
proof fn lemma_group_is_on_a_line(ls: Seq<Seq<char>>)
    ensures
        cgroup_in(ls) is Some <==> exists|j: int|
            0 <= j < ls.len() && text::has_prefix(#[trigger] ls[j], seq!['0', ':', ':']),
    decreases ls.len(),
{
    reveal_strlit("0::");
    let unified = seq!['0', ':', ':'];
    assert("0::"@ =~= unified);
    if ls.len() > 0 {
        let rest = ls.drop_first();
        lemma_group_is_on_a_line(rest);
        if exists|j: int| 0 <= j < rest.len() && text::has_prefix(#[trigger] rest[j], unified) {
            let j = choose|j: int|
                0 <= j < rest.len() && text::has_prefix(#[trigger] rest[j], unified);
            assert(ls[j + 1] == rest[j]);
        }
        if exists|j: int| 0 <= j < ls.len() && text::has_prefix(#[trigger] ls[j], unified) {
            let j = choose|j: int| 0 <= j < ls.len() && text::has_prefix(#[trigger] ls[j], unified);
            if j > 0 {
                assert(rest[j - 1] == ls[j]);
            }
        }
    }
}

} // verus!
