//! The cache of packages and bound threads.

use std::collections::HashMap;

use vstd::prelude::*;

use crate::bpf;
use crate::bpf::comm_to_pkg;
use crate::config::AppConfig;
use crate::cpuset::CpuSet;
use crate::sync;
use crate::sync::{SyncPhase, ThreadSync};

verus! {

broadcast use vstd::std_specs::hash::group_hash_axioms;

// ---------------------------------------------------------------------------
// Data
// ---------------------------------------------------------------------------

/// What is kept of a bound thread.
pub struct TaskEntry {
    /// Process that the thread belongs to.
    pub pid: i32,
    /// CPUs that the thread is to run on.
    pub cpus: CpuSet,
    /// Name of the cpuset directory that goes with them; empty for the base.
    pub cpuset_dir: String,
    /// Whether a rule names this very thread, and not just its package.
    pub is_thread_rule: bool,
    /// Whether the last binding was refused. Such a thread is left alone, so that
    /// no time goes into bindings that cannot succeed.
    pub failed: bool,
    /// CPUs that the rule names, which the thread returns to.
    pub base_cpus: CpuSet,
    /// CPU time at the last sample, in ticks; 0 before the first.
    pub prev_ticks: u64,
    /// CPUs that the kernel was found to allow; empty where no limit is known.
    /// Targets stay within it, so that no period starts with a refused request.
    pub cap: CpuSet,
    /// Number of periods that `cap` has been believed.
    pub cap_age: u8,
}

/// The CPUs that a rule gives to a thread.
pub struct ThreadAffinity {
    /// The CPUs.
    pub cpus: CpuSet,
    /// Name of the cpuset directory that goes with them.
    pub cpuset_dir: String,
    /// Whether the rule names the very thread, and not just its package.
    pub is_thread_rule: bool,
}

/// Packages by process and bound threads by thread.
pub struct ProcCache {
    /// Package of a process, and whether that has rules for single threads.
    pub pkgs: HashMap<i32, (String, bool)>,
    /// Bound threads.
    pub tasks: HashMap<i32, TaskEntry>,
}

// ---------------------------------------------------------------------------
// Model
// ---------------------------------------------------------------------------

/// A bound thread, with sets of CPUs for masks and characters for texts.
#[verifier::ext_equal]
pub ghost struct TaskModel {
    pub pid: i32,
    pub cpus: Set<int>,
    pub cpuset_dir: Seq<char>,
    pub is_thread_rule: bool,
    pub failed: bool,
    pub base_cpus: Set<int>,
    pub prev_ticks: u64,
    pub cap: Set<int>,
    pub cap_age: u8,
}

/// A rule's CPUs, with sets of CPUs for masks and characters for texts.
#[verifier::ext_equal]
pub ghost struct RuleModel {
    pub cpus: Set<int>,
    pub cpuset_dir: Seq<char>,
    pub is_thread_rule: bool,
}

/// The cache, with models of its contents.
#[verifier::ext_equal]
pub ghost struct CacheModel {
    pub pkgs: Map<i32, (Seq<char>, bool)>,
    pub tasks: Map<i32, TaskModel>,
}

impl View for TaskEntry {
    type V = TaskModel;

    open spec fn view(&self) -> TaskModel {
        TaskModel {
            pid: self.pid,
            cpus: self.cpus@,
            cpuset_dir: self.cpuset_dir@,
            is_thread_rule: self.is_thread_rule,
            failed: self.failed,
            base_cpus: self.base_cpus@,
            prev_ticks: self.prev_ticks,
            cap: self.cap@,
            cap_age: self.cap_age,
        }
    }
}

impl View for ThreadAffinity {
    type V = RuleModel;

    open spec fn view(&self) -> RuleModel {
        RuleModel {
            cpus: self.cpus@,
            cpuset_dir: self.cpuset_dir@,
            is_thread_rule: self.is_thread_rule,
        }
    }
}

impl View for ProcCache {
    type V = CacheModel;

    open spec fn view(&self) -> CacheModel {
        CacheModel {
            pkgs: self.pkgs@.map_values(|p: (String, bool)| (p.0@, p.1)),
            tasks: self.tasks@.map_values(|t: TaskEntry| t@),
        }
    }
}

// ---------------------------------------------------------------------------
// Packages and threads
// ---------------------------------------------------------------------------

/// Whether `tasks` holds a thread of process `pid`.
pub open spec fn has_thread_of(tasks: Map<i32, TaskModel>, pid: i32) -> bool {
    exists|tid: i32| #[trigger] tasks.contains_key(tid) && tasks[tid].pid == pid
}

/// The cache without the package of `pid`, where it holds no thread of `pid`.
pub open spec fn purged(m: CacheModel, pid: i32) -> CacheModel {
    if has_thread_of(m.tasks, pid) {
        m
    } else {
        CacheModel { pkgs: m.pkgs.remove(pid), ..m }
    }
}

/// The cache without thread `tid`, and without the package of its process where
/// that was the last thread.
pub open spec fn without_task(m: CacheModel, tid: i32) -> CacheModel {
    if m.tasks.contains_key(tid) {
        purged(CacheModel { tasks: m.tasks.remove(tid), ..m }, m.tasks[tid].pid)
    } else {
        m
    }
}

/// What is known of process `pid` after its thread `comm` was looked up: what the
/// cache held, else the package that the name belongs to.
pub open spec fn looked_up(m: CacheModel, pid: i32, comm: Seq<char>, cfg: &AppConfig) -> Option<
    (Seq<char>, bool),
> {
    if m.pkgs.contains_key(pid) {
        Some(m.pkgs[pid])
    } else {
        match bpf::package_for(comm, cfg.pkgs()) {
            Some(pkg) => Some((pkg, cfg.has_thread_rules(pkg))),
            None => None,
        }
    }
}

impl ProcCache {
    /// An empty cache.
    pub fn new() -> (cache: ProcCache)
        ensures
            cache@ == (CacheModel { pkgs: Map::empty(), tasks: Map::empty() }),
    {
        let cache = ProcCache { pkgs: HashMap::new(), tasks: HashMap::new() };
        assert(cache@ =~= (CacheModel { pkgs: Map::empty(), tasks: Map::empty() }));
        cache
    }

    /// Forgets everything.
    pub fn clear(&mut self)
        ensures
            final(self)@ == (CacheModel { pkgs: Map::empty(), tasks: Map::empty() }),
    {
        self.pkgs.clear();
        self.tasks.clear();
        assert(self@ =~= (CacheModel { pkgs: Map::empty(), tasks: Map::empty() }));
    }

    /// Forgets thread `tid`, and the package of its process where that was the
    /// last thread.
    pub fn task_del(&mut self, tid: i32)
        ensures
            final(self)@ == without_task(old(self)@, tid),
    {
        let ghost before = self@;
        match self.tasks.remove(&tid) {
            Some(t) => {
                assert(before.tasks.contains_key(tid));
                assert(before.tasks[tid] == t@);
                assert(self@ =~= (CacheModel { tasks: before.tasks.remove(tid), ..before }));
                self.pkgs_purge(t.pid);
            },
            None => {
                assert(!before.tasks.contains_key(tid));
                assert(self@ =~= before);
            },
        }
    }

    /// Forgets the package of `pid`, where no thread of `pid` is left.
    fn pkgs_purge(&mut self, pid: i32)
        ensures
            final(self)@ == purged(old(self)@, pid),
    {
        let mut found = false;
        let ghost mut seen: Seq<TaskEntry> = Seq::empty();
        for t in it: self.tasks.values()
            invariant
                *self == *old(self),
                it.seq().unref().to_set() == self.tasks@.values(),
                seen == it.seq().unref().take(it.index()),
                it.index() == it.seq().len() ==> seen == it.seq().unref(),
                found <==> exists|i: int| 0 <= i < seen.len() && (#[trigger] seen[i]).pid == pid,
        {
            proof {
                let before = seen;
                seen = seen.push(*t);
                assert(seen =~= it.seq().unref().take(it.index() + 1));
                if t.pid == pid {
                    assert(seen.last().pid == pid);
                }
                assert(forall|i: int| 0 <= i < before.len() ==> seen[i] == #[trigger] before[i]);
                if exists|i: int| 0 <= i < before.len() && (#[trigger] before[i]).pid == pid {
                    let i = choose|i: int|
                        0 <= i < before.len() && (#[trigger] before[i]).pid == pid;
                    assert(seen[i].pid == pid);
                }
            }
            if t.pid == pid {
                found = true;
            }
        }
        proof {
            assert(seen.to_set() == self.tasks@.values());
            if found {
                let i = choose|i: int| 0 <= i < seen.len() && (#[trigger] seen[i]).pid == pid;
                assert(seen.to_set().contains(seen[i]));
                let tid = choose|tid: i32| #[trigger]
                    self.tasks@.contains_key(tid) && self.tasks@[tid] == seen[i];
                assert(self@.tasks.contains_key(tid) && self@.tasks[tid].pid == pid);
            }
            if has_thread_of(self@.tasks, pid) {
                let tid = choose|tid: i32| #[trigger]
                    self@.tasks.contains_key(tid) && self@.tasks[tid].pid == pid;
                assert(self.tasks@.contains_key(tid));
                assert(seen.to_set().contains(self.tasks@[tid]));
                let i = choose|i: int| 0 <= i < seen.len() && seen[i] == self.tasks@[tid];
                assert(seen[i].pid == pid);
            }
        }
        if !found {
            self.pkgs.remove(&pid);
            assert(self@ =~= purged(old(self)@, pid));
        }
    }

    /// The package of process `pid`, and whether that has rules for single
    /// threads: what is cached, else the package that the thread's name `comm`
    /// belongs to, which is then cached.
    pub fn pkg_lookup_comm(&mut self, pid: i32, comm: &str, cfg: &AppConfig) -> (out: Option<
        (String, bool),
    >)
        ensures
            (match out {
                Some((pkg, rules)) => Some((pkg@, rules)),
                None => None,
            }) == looked_up(old(self)@, pid, comm@, cfg),
            final(self)@ == (match looked_up(old(self)@, pid, comm@, cfg) {
                Some(p) => CacheModel { pkgs: old(self)@.pkgs.insert(pid, p), ..old(self)@ },
                None => old(self)@,
            }),
    {
        if let Some(p) = self.pkgs.get(&pid) {
            assert(self@.pkgs.contains_key(pid));
            assert(self@.pkgs[pid] == (p.0@, p.1));
            assert(self@.pkgs.insert(pid, self@.pkgs[pid]) =~= self@.pkgs);
            return Some((p.0.clone(), p.1));
        }
        assert(!self@.pkgs.contains_key(pid));
        match comm_to_pkg(comm, cfg) {
            Some(pkg) => {
                let has_thread_rules = cfg.pkg_has_thread_rules(pkg.as_str());
                let ghost entry = (pkg@, has_thread_rules);
                self.pkgs.insert(pid, (pkg.clone(), has_thread_rules));
                assert(self@ =~= (CacheModel {
                    pkgs: old(self)@.pkgs.insert(pid, entry),
                    ..old(self)@
                }));
                Some((pkg, has_thread_rules))
            },
            None => None,
        }
    }
}

// ---------------------------------------------------------------------------
// Binding a thread by its rule
// ---------------------------------------------------------------------------

/// The name by which a thread's rule is looked up: its own, where the package has
/// rules for single threads and the name can be trusted; else none, which leaves
/// the rule for the package.
pub open spec fn thread_name(comm: Seq<char>, has_thread_rules: bool, trust_comm: bool) -> Seq<
    char,
> {
    if has_thread_rules && trust_comm {
        comm
    } else {
        seq![]
    }
}

/// Whether thread `tid` keeps the binding that it has: a rule for its package does
/// not replace one that names the thread, as a thread may change its name for a
/// while.
pub open spec fn keeps_binding(m: CacheModel, tid: i32, rule: RuleModel) -> bool {
    !rule.is_thread_rule && m.tasks.contains_key(tid) && m.tasks[tid].is_thread_rule
}

/// The limit that is known for thread `tid`.
pub open spec fn cap_of(m: CacheModel, tid: i32) -> Set<int> {
    if m.tasks.contains_key(tid) {
        m.tasks[tid].cap
    } else {
        Set::empty()
    }
}

/// What is kept of a thread that was bound by `rule`. `eff` is the set in force
/// where it is not the rule's, and `eff_dir` the directory that goes with it; `cap`
/// is the limit that was known before.
pub open spec fn bound_task(
    pid: i32,
    rule: RuleModel,
    cap: Set<int>,
    eff: Option<Set<int>>,
    eff_dir: Seq<char>,
) -> TaskModel {
    TaskModel {
        pid,
        cpus: match eff {
            Some(e) => e,
            None => rule.cpus,
        },
        cpuset_dir: match eff {
            Some(_) => eff_dir,
            None => rule.cpuset_dir,
        },
        is_thread_rule: rule.is_thread_rule,
        failed: false,
        base_cpus: rule.cpus,
        prev_ticks: 0,
        cap: match eff {
            Some(e) => e,
            None => cap,
        },
        cap_age: 0,
    }
}

/// The cache after thread `tid` was bound by `rule`, or was found dead.
pub open spec fn applied(
    m: CacheModel,
    tid: i32,
    pid: i32,
    rule: RuleModel,
    dead: bool,
    eff: Option<Set<int>>,
    eff_dir: Seq<char>,
) -> CacheModel {
    CacheModel {
        tasks: if dead {
            m.tasks.remove(tid)
        } else {
            m.tasks.insert(tid, bound_task(pid, rule, cap_of(m, tid), eff, eff_dir))
        },
        ..m
    }
}

/// Whether `dir` is the directory that goes with the set that a binding reports:
/// the one that `ensure_dir` gives for it, and none where there is no such set or
/// cpusets are off.
pub open spec fn is_dir_for<D: FnOnce(&CpuSet) -> String>(
    ensure_dir: D,
    cpuset_enabled: bool,
    reply: (bool, Option<CpuSet>),
    dir: Seq<char>,
) -> bool {
    match reply {
        (false, Some(eff)) if cpuset_enabled => exists|d: String|
            #[trigger] call_ensures(ensure_dir, (&eff,), d) && d@ == dir,
        _ => dir.len() == 0,
    }
}

/// Whether `rule` is what `thread_affinity` gives for `pkg` and the thread name
/// `name`.
pub open spec fn is_rule_for<M: FnOnce(&str, &str) -> Option<ThreadAffinity>>(
    thread_affinity: M,
    pkg: &str,
    name: Seq<char>,
    rule: Option<ThreadAffinity>,
) -> bool {
    exists|n: &str| n@ == name && #[trigger] call_ensures(thread_affinity, (pkg, n), rule)
}

/// Whether `r` is the rule for thread `tid`, and the thread does not keep the
/// binding that it has.
pub open spec fn applies_rule<M: FnOnce(&str, &str) -> Option<ThreadAffinity>>(
    m: CacheModel,
    tid: i32,
    pkg: &str,
    name: Seq<char>,
    thread_affinity: M,
    r: ThreadAffinity,
) -> bool {
    is_rule_for(thread_affinity, pkg, name, Some(r)) && !keeps_binding(m, tid, r@)
}

/// Whether thread `tid` is to be bound to `cpus`, with the directory `dir`: they are
/// those of the rule for it, and the thread does not keep the binding that it has.
pub open spec fn is_apply_call<M: FnOnce(&str, &str) -> Option<ThreadAffinity>>(
    m: CacheModel,
    tid: i32,
    pkg: &str,
    name: Seq<char>,
    thread_affinity: M,
    cpus: CpuSet,
    dir: Seq<char>,
) -> bool {
    exists|r: ThreadAffinity| #[trigger]
        applies_rule(m, tid, pkg, name, thread_affinity, r) && cpus == r.cpus && dir
            == r.cpuset_dir@
}

/// Whether the directory for `eff` is to be made: cpusets are on, and binding
/// thread `tid` left it alive with `eff` in force.
pub open spec fn is_dir_call<
    M: FnOnce(&str, &str) -> Option<ThreadAffinity>,
    F: FnOnce(i32, &CpuSet, &str) -> (bool, Option<CpuSet>),
>(
    m: CacheModel,
    tid: i32,
    pkg: &str,
    name: Seq<char>,
    cpuset_enabled: bool,
    thread_affinity: M,
    apply_fn: F,
    eff: CpuSet,
) -> bool {
    cpuset_enabled && exists|cpus: &CpuSet, dir: &str|
        is_apply_call(m, tid, pkg, name, thread_affinity, *cpus, dir@) && #[trigger] call_ensures(
            apply_fn,
            (tid, cpus, dir),
            (false, Some(eff)),
        )
}

/// Whether binding thread `tid` by the rule `r` can end with `bound` and the cache
/// `after`: `apply_fn` was called with the rule's CPUs and directory, and what it
/// said was taken down.
pub open spec fn is_applied_by<
    F: FnOnce(i32, &CpuSet, &str) -> (bool, Option<CpuSet>),
    D: FnOnce(&CpuSet) -> String,
>(
    before: CacheModel,
    tid: i32,
    pid: i32,
    r: ThreadAffinity,
    cpuset_enabled: bool,
    apply_fn: F,
    ensure_dir: D,
    bound: bool,
    after: CacheModel,
) -> bool {
    exists|dir: &str, reply: (bool, Option<CpuSet>), eff_dir: Seq<char>|
        #![trigger
            call_ensures(apply_fn, (tid, &r.cpus, dir), reply),
            is_dir_for(ensure_dir, cpuset_enabled, reply, eff_dir)
        ]
        {
            &&& dir@ == r.cpuset_dir@
            &&& call_ensures(apply_fn, (tid, &r.cpus, dir), reply)
            &&& is_dir_for(ensure_dir, cpuset_enabled, reply, eff_dir)
            &&& bound == !reply.0
            &&& after == applied(before, tid, pid, r@, reply.0, reply.1.deep_view(), eff_dir)
        }
}

/// Whether [`ProcCache::task_apply`] can end with `bound` and the cache `after`.
/// Without a rule nothing is bound and nothing changes. A thread that keeps its
/// binding counts as bound, and nothing changes. Any other thread is bound by its
/// rule.
pub open spec fn task_outcome<
    M: FnOnce(&str, &str) -> Option<ThreadAffinity>,
    F: FnOnce(i32, &CpuSet, &str) -> (bool, Option<CpuSet>),
    D: FnOnce(&CpuSet) -> String,
>(
    before: CacheModel,
    tid: i32,
    pid: i32,
    pkg: &str,
    name: Seq<char>,
    cpuset_enabled: bool,
    thread_affinity: M,
    apply_fn: F,
    ensure_dir: D,
    bound: bool,
    after: CacheModel,
) -> bool {
    exists|rule: Option<ThreadAffinity>| #[trigger]
        is_rule_for(thread_affinity, pkg, name, rule) && match rule {
            None => !bound && after == before,
            Some(r) => if keeps_binding(before, tid, r@) {
                bound && after == before
            } else {
                is_applied_by(
                    before,
                    tid,
                    pid,
                    r,
                    cpuset_enabled,
                    apply_fn,
                    ensure_dir,
                    bound,
                    after,
                )
            },
        }
}

impl ProcCache {
    /// Whether thread `tid` keeps the binding that it has, whatever `rule` says.
    pub fn task_keeps(&self, tid: i32, rule: &ThreadAffinity) -> (b: bool)
        ensures
            b == keeps_binding(self@, tid, rule@),
    {
        if rule.is_thread_rule {
            return false;
        }
        match self.tasks.get(&tid) {
            Some(old_task) => {
                assert(self@.tasks.contains_key(tid));
                assert(self@.tasks[tid] == old_task@);
                old_task.is_thread_rule
            },
            None => {
                assert(!self@.tasks.contains_key(tid));
                false
            },
        }
    }

    /// Takes down what came of binding thread `tid` by `rule`: that it was `dead`,
    /// or the set `eff` in force where it is not the rule's, with the directory
    /// `eff_dir` that goes with it. Whether the thread lives.
    pub fn task_record(
        &mut self,
        tid: i32,
        pid: i32,
        rule: ThreadAffinity,
        dead: bool,
        eff: Option<CpuSet>,
        eff_dir: String,
    ) -> (live: bool)
        ensures
            live == !dead,
            final(self)@ == applied(
                old(self)@,
                tid,
                pid,
                rule@,
                dead,
                eff.deep_view(),
                eff_dir@,
            ),
    {
        let ghost m = self@;
        let known_cap = match self.tasks.remove(&tid) {
            Some(t) => {
                assert(m.tasks.contains_key(tid));
                assert(m.tasks[tid] == t@);
                t.cap
            },
            None => {
                assert(!m.tasks.contains_key(tid));
                CpuSet::new()
            },
        };
        assert(known_cap@ == cap_of(m, tid));
        assert(self@ =~= (CacheModel { tasks: m.tasks.remove(tid), ..m }));
        if dead {
            return false;
        }
        let (cpus, cap, dir) = match eff {
            Some(e) => (e, e, eff_dir),
            None => (rule.cpus, known_cap, rule.cpuset_dir),
        };
        let entry = TaskEntry {
            pid,
            cpus,
            cpuset_dir: dir,
            is_thread_rule: rule.is_thread_rule,
            failed: false,
            base_cpus: rule.cpus,
            prev_ticks: 0,
            cap,
            cap_age: 0,
        };
        let ghost task = entry@;
        self.tasks.insert(tid, entry);
        assert(self@ =~= (CacheModel { tasks: m.tasks.insert(tid, task), ..m }));
        true
    }

    /// Binds thread `tid` of process `pid` by the rule for it. `thread_affinity`
    /// gives the rule for a package and a thread name; `apply_fn` binds the thread
    /// and says whether it is dead and which set is in force where it is not the
    /// rule's; `ensure_dir` makes the cpuset directory for a set. The name `comm`
    /// counts only where it can be trusted and the package has rules for single
    /// threads. Whether the thread is bound by a rule now.
    ///
    /// `apply_fn` is called where there is a rule and the thread does not keep the
    /// binding that it has, with that rule's CPUs and directory, and nowhere else.
    /// `ensure_dir` is called for the set that a living thread was bound to instead,
    /// where cpusets are on, and nowhere else.
    pub fn task_apply<M, F, D>(
        &mut self,
        tid: i32,
        pid: i32,
        pkg: &str,
        comm: &str,
        has_thread_rules: bool,
        cfg: &AppConfig,
        trust_comm: bool,
        thread_affinity: M,
        apply_fn: F,
        ensure_dir: D,
    ) -> (bound: bool) where
        M: FnOnce(&str, &str) -> Option<ThreadAffinity>,
        F: FnOnce(i32, &CpuSet, &str) -> (bool, Option<CpuSet>),
        D: FnOnce(&CpuSet) -> String,

        requires
            forall|name: &str|
                name@ == thread_name(comm@, has_thread_rules, trust_comm) ==> #[trigger]
                    call_requires(thread_affinity, (pkg, name)),
            forall|cpus: &CpuSet, dir: &str|
                is_apply_call(
                    old(self)@,
                    tid,
                    pkg,
                    thread_name(comm@, has_thread_rules, trust_comm),
                    thread_affinity,
                    *cpus,
                    dir@,
                ) ==> #[trigger] call_requires(apply_fn, (tid, cpus, dir)),
            forall|eff: &CpuSet|
                is_dir_call(
                    old(self)@,
                    tid,
                    pkg,
                    thread_name(comm@, has_thread_rules, trust_comm),
                    cfg.topo.cpuset_enabled,
                    thread_affinity,
                    apply_fn,
                    *eff,
                ) ==> #[trigger] call_requires(ensure_dir, (eff,)),
        ensures
            task_outcome(
                old(self)@,
                tid,
                pid,
                pkg,
                thread_name(comm@, has_thread_rules, trust_comm),
                cfg.topo.cpuset_enabled,
                thread_affinity,
                apply_fn,
                ensure_dir,
                bound,
                final(self)@,
            ),
    {
        let name = if has_thread_rules && trust_comm {
            comm
        } else {
            ""
        };
        assert(""@ == Seq::<char>::empty()) by {
            reveal_strlit("");
        }
        let rule = thread_affinity(pkg, name);
        assert(is_rule_for(thread_affinity, pkg, name@, rule));
        match rule {
            None => false,
            Some(r) => {
                if self.task_keeps(tid, &r) {
                    return true;
                }
                let dir = r.cpuset_dir.as_str();
                assert(applies_rule(self@, tid, pkg, name@, thread_affinity, r));
                assert(is_apply_call(self@, tid, pkg, name@, thread_affinity, r.cpus, dir@));
                let (dead, eff) = apply_fn(tid, &r.cpus, dir);
                let eff_dir = match eff {
                    Some(e) => if !dead && cfg.topo.cpuset_enabled {
                        ensure_dir(&e)
                    } else {
                        String::new()
                    },
                    None => String::new(),
                };
                assert(is_dir_for(ensure_dir, cfg.topo.cpuset_enabled, (dead, eff), eff_dir@));
                self.task_record(tid, pid, r, dead, eff, eff_dir)
            },
        }
    }
}

// ---------------------------------------------------------------------------
// One period of all threads
// ---------------------------------------------------------------------------

impl Clone for TaskEntry {
    fn clone(&self) -> (t: TaskEntry)
        ensures
            t@ == self@,
    {
        TaskEntry {
            pid: self.pid,
            cpus: self.cpus,
            cpuset_dir: self.cpuset_dir.clone(),
            is_thread_rule: self.is_thread_rule,
            failed: self.failed,
            base_cpus: self.base_cpus,
            prev_ticks: self.prev_ticks,
            cap: self.cap,
            cap_age: self.cap_age,
        }
    }
}

/// Whether `pid` is one of `pids`.
fn has_pid(pids: &Vec<i32>, pid: i32) -> (b: bool)
    ensures
        b == pids@.contains(pid),
{
    for i in 0..pids.len()
        invariant
            forall|j: int| 0 <= j < i ==> pids@[j] != pid,
    {
        if pids[i] == pid {
            return true;
        }
    }
    false
}

/// Whether `run` is the start of the period of a thread in the cache.
pub open spec fn is_start_of(
    run: ThreadSync,
    m: CacheModel,
    cfg: &AppConfig,
    elapsed: u64,
    background: Seq<i32>,
) -> bool {
    &&& m.tasks.contains_key(run.tid)
    &&& !m.tasks[run.tid].failed
    &&& run@ == sync::sync_start(
        m.tasks[run.tid],
        cfg,
        elapsed,
        background.contains(m.tasks[run.tid].pid),
    )
}

/// Whether one of `runs` is for thread `tid`.
spec fn has_run(runs: Seq<ThreadSync>, tid: i32) -> bool {
    exists|i: int| 0 <= i < runs.len() && (#[trigger] runs[i]).tid == tid
}

/// The cache with what the finished of `runs` have come to.
pub open spec fn written(m: CacheModel, runs: Seq<ThreadSync>) -> CacheModel
    decreases runs.len(),
{
    if runs.len() == 0 {
        m
    } else {
        let p = written(m, runs.drop_last());
        let run = runs.last();
        if run.phase == SyncPhase::Done && p.tasks.contains_key(run.tid) {
            CacheModel { tasks: p.tasks.insert(run.tid, run.entry@), ..p }
        } else {
            p
        }
    }
}

/// The threads that the finished of `runs` found dead, in order.
pub open spec fn dead_in(runs: Seq<ThreadSync>) -> Seq<i32>
    decreases runs.len(),
{
    if runs.len() == 0 {
        seq![]
    } else {
        let p = dead_in(runs.drop_last());
        let run = runs.last();
        if run.phase == SyncPhase::Done && run.dead {
            p.push(run.tid)
        } else {
            p
        }
    }
}

/// The cache without the threads `tids`, one after the other.
pub open spec fn without_tasks(m: CacheModel, tids: Seq<i32>) -> CacheModel
    decreases tids.len(),
{
    if tids.len() == 0 {
        m
    } else {
        without_task(without_tasks(m, tids.drop_last()), tids.last())
    }
}

impl ProcCache {
    /// The processes whose state a period has to know, each once: those of the
    /// threads in the cache, where the configuration asks for it.
    pub fn sync_pids(&self, cfg: &AppConfig) -> (pids: Vec<i32>)
        ensures
            pids@.no_duplicates(),
            forall|pid: i32| #[trigger]
                pids@.contains(pid) <==> cfg.foreground_aware && has_thread_of(self@.tasks, pid),
    {
        let mut pids: Vec<i32> = Vec::new();
        if !cfg.foreground_aware {
            return pids;
        }
        let ghost mut seen: Seq<i32> = Seq::empty();
        for tid in it: self.tasks.keys()
            invariant
                it.seq().unref().to_set() == self.tasks@.dom(),
                seen == it.seq().unref().take(it.index()),
                it.index() == it.seq().len() ==> seen == it.seq().unref(),
                pids@.no_duplicates(),
                forall|i: int|
                    0 <= i < seen.len() ==> self.tasks@.contains_key(#[trigger] seen[i])
                        && pids@.contains(self.tasks@[seen[i]].pid),
                forall|pid: i32| #[trigger]
                    pids@.contains(pid) ==> has_thread_of(self@.tasks, pid),
        {
            let ghost before = seen;
            proof {
                seen = seen.push(*tid);
                assert(seen =~= it.seq().unref().take(it.index() + 1));
                assert(it.seq().unref().contains(*tid)) by {
                    assert(it.seq().unref()[it.index()] == *tid);
                }
                assert(self.tasks@.contains_key(*tid)) by {
                    assert(it.seq().unref().to_set().contains(*tid));
                }
            }
            if let Some(t) = self.tasks.get(tid) {
                let pid = t.pid;
                let ghost old_pids = pids@;
                assert(self@.tasks.contains_key(*tid) && self@.tasks[*tid].pid == pid);
                if !has_pid(&pids, pid) {
                    pids.push(pid);
                    proof {
                        assert(pids@.last() == pid);
                        assert forall|p: i32| #[trigger]
                            pids@.contains(p) <==> old_pids.contains(p) || p == pid by {
                            if old_pids.contains(p) {
                                let k = old_pids.index_of(p);
                                assert(pids@[k] == p);
                            }
                        }
                    }
                }
            }
        }
        proof {
            assert forall|pid: i32| has_thread_of(self@.tasks, pid) implies #[trigger]
                pids@.contains(pid) by {
                let tid = choose|tid: i32| #[trigger]
                    self@.tasks.contains_key(tid) && self@.tasks[tid].pid == pid;
                assert(seen.to_set().contains(tid));
                let i = seen.index_of(tid);
                assert(seen[i] == tid);
            }
        }
        pids
    }

    /// Starts a period: one run for each thread whose last binding was not
    /// refused. `elapsed_ticks` is the time since the last period, `background` the
    /// processes in the background.
    pub fn sync_runs(&self, cfg: &AppConfig, elapsed_ticks: u64, background: &Vec<i32>) -> (runs:
        Vec<ThreadSync>)
        ensures
            forall|i: int|
                0 <= i < runs@.len() ==> is_start_of(
                    #[trigger] runs@[i],
                    self@,
                    cfg,
                    elapsed_ticks,
                    background@,
                ),
            forall|i: int, j: int|
                0 <= i < j < runs@.len() ==> (#[trigger] runs@[i]).tid != (#[trigger] runs@[j]).tid,
            forall|tid: i32| #[trigger]
                self@.tasks.contains_key(tid) && !self@.tasks[tid].failed ==> exists|i: int|
                    0 <= i < runs@.len() && (#[trigger] runs@[i]).tid == tid,
    {
        let mut runs: Vec<ThreadSync> = Vec::new();
        let ghost mut seen: Seq<i32> = Seq::empty();
        for tid in it: self.tasks.keys()
            invariant
                it.seq().unref().to_set() == self.tasks@.dom(),
                it.seq().no_duplicates(),
                seen == it.seq().unref().take(it.index()),
                it.index() == it.seq().len() ==> seen == it.seq().unref(),
                forall|i: int|
                    0 <= i < runs@.len() ==> is_start_of(
                        #[trigger] runs@[i],
                        self@,
                        cfg,
                        elapsed_ticks,
                        background@,
                    ),
                forall|i: int| 0 <= i < runs@.len() ==> seen.contains((#[trigger] runs@[i]).tid),
                forall|i: int, j: int|
                    0 <= i < j < runs@.len() ==> (#[trigger] runs@[i]).tid != (
                    #[trigger] runs@[j]).tid,
                forall|k: int|
                    0 <= k < seen.len() && !self@.tasks[#[trigger] seen[k]].failed ==> has_run(
                        runs@,
                        seen[k],
                    ),
        {
            let ghost before = seen;
            let ghost old_runs = runs@;
            proof {
                seen = seen.push(*tid);
                assert(seen =~= it.seq().unref().take(it.index() + 1));
                assert(it.seq().unref()[it.index()] == *tid);
                assert(it.seq().unref().to_set().contains(*tid));
                assert(self.tasks@.contains_key(*tid));
                assert(!before.contains(*tid)) by {
                    if before.contains(*tid) {
                        let k = before.index_of(*tid);
                        assert(it.seq()[k] == it.seq()[it.index()]);
                    }
                }
                assert forall|x: i32| before.contains(x) implies seen.contains(x) by {
                    let k = before.index_of(x);
                    assert(seen[k] == x);
                }
                assert(seen.last() == *tid);
            }
            if let Some(t) = self.tasks.get(tid) {
                assert(self@.tasks.contains_key(*tid) && self@.tasks[*tid] == t@);
                if !t.failed {
                    let is_bg = has_pid(background, t.pid);
                    let run = ThreadSync::new(*tid, t.clone(), cfg, elapsed_ticks, is_bg);
                    runs.push(run);
                    assert(runs@.last().tid == *tid);
                }
            }
            proof {
                assert forall|k: int|
                    0 <= k < seen.len() && !self@.tasks[#[trigger] seen[k]].failed implies has_run(
                    runs@,
                    seen[k],
                ) by {
                    if k < before.len() {
                        assert(seen[k] == before[k]);
                        let i = choose|i: int|
                            0 <= i < old_runs.len() && (#[trigger] old_runs[i]).tid == seen[k];
                        assert(runs@[i] == old_runs[i]);
                    }
                }
            }
        }
        proof {
            assert forall|tid: i32| #[trigger]
                self@.tasks.contains_key(tid) && !self@.tasks[tid].failed implies exists|i: int|
                0 <= i < runs@.len() && (#[trigger] runs@[i]).tid == tid by {
                assert(seen.to_set().contains(tid));
                let k = seen.index_of(tid);
                assert(seen[k] == tid);
                assert(has_run(runs@, tid));
            }
        }
        runs
    }

    /// Ends a period: takes over what the finished of `runs` have come to, and
    /// forgets the threads that were found dead, which are returned. A run that is
    /// not finished, or whose thread is not in the cache, changes nothing.
    pub fn affinity_sync(&mut self, runs: &Vec<ThreadSync>) -> (dead: Vec<i32>)
        ensures
            dead@ == dead_in(runs@),
            final(self)@ == without_tasks(written(old(self)@, runs@), dead_in(runs@)),
    {
        let ghost m = self@;
        let mut dead: Vec<i32> = Vec::new();
        assert(runs@.take(0) =~= Seq::<ThreadSync>::empty());
        for i in 0..runs.len()
            invariant
                self@ == written(m, runs@.take(i as int)),
                dead@ == dead_in(runs@.take(i as int)),
        {
            let ghost p = self@;
            let run = &runs[i];
            assert(runs@.take(i + 1).drop_last() =~= runs@.take(i as int));
            assert(runs@.take(i + 1).last() == run);
            if run.phase == SyncPhase::Done {
                if self.tasks.contains_key(&run.tid) {
                    assert(p.tasks.contains_key(run.tid));
                    self.tasks.insert(run.tid, run.entry.clone());
                    assert(self@ =~= (CacheModel {
                        tasks: p.tasks.insert(run.tid, run.entry@),
                        ..p
                    }));
                }
                if run.dead {
                    dead.push(run.tid);
                }
            }
        }
        assert(runs@.take(runs@.len() as int) =~= runs@);
        let ghost w = self@;
        assert(dead@.take(0) =~= Seq::<i32>::empty());
        for i in 0..dead.len()
            invariant
                self@ == without_tasks(w, dead@.take(i as int)),
        {
            assert(dead@.take(i + 1).drop_last() =~= dead@.take(i as int));
            assert(dead@.take(i + 1).last() == dead@[i as int]);
            self.task_del(dead[i]);
        }
        assert(dead@.take(dead@.len() as int) =~= dead@);
        dead
    }
}

// ---------------------------------------------------------------------------
// Laws
// ---------------------------------------------------------------------------

/// Where there is no rule for a thread, or where the thread keeps the binding that
/// it has, no call binds it, no directory is made and nothing changes. It counts as
/// bound exactly in the second case.
pub proof fn law_kept_threads_are_not_touched<
    M: FnOnce(&str, &str) -> Option<ThreadAffinity>,
    F: FnOnce(i32, &CpuSet, &str) -> (bool, Option<CpuSet>),
    D: FnOnce(&CpuSet) -> String,
>(
    before: CacheModel,
    tid: i32,
    pid: i32,
    pkg: &str,
    name: Seq<char>,
    cpuset_enabled: bool,
    thread_affinity: M,
    apply_fn: F,
    ensure_dir: D,
    kept: bool,
)
    requires
        forall|rule: Option<ThreadAffinity>| #[trigger]
            is_rule_for(thread_affinity, pkg, name, rule) ==> if kept {
                rule is Some && keeps_binding(before, tid, rule->0@)
            } else {
                rule is None
            },
    ensures
        forall|cpus: CpuSet, dir: Seq<char>|
            !is_apply_call(before, tid, pkg, name, thread_affinity, cpus, dir),
        forall|eff: CpuSet|
            !is_dir_call(
                before,
                tid,
                pkg,
                name,
                cpuset_enabled,
                thread_affinity,
                apply_fn,
                eff,
            ),
        forall|bound: bool, after: CacheModel| #[trigger]
            task_outcome(
                before,
                tid,
                pid,
                pkg,
                name,
                cpuset_enabled,
                thread_affinity,
                apply_fn,
                ensure_dir,
                bound,
                after,
            ) ==> bound == kept && after == before,
{
}

/// Binding a thread changes no package and no other thread, and a thread that
/// counts as bound is in the cache.
pub proof fn law_binding_touches_one_thread<
    M: FnOnce(&str, &str) -> Option<ThreadAffinity>,
    F: FnOnce(i32, &CpuSet, &str) -> (bool, Option<CpuSet>),
    D: FnOnce(&CpuSet) -> String,
>(
    before: CacheModel,
    tid: i32,
    pid: i32,
    pkg: &str,
    name: Seq<char>,
    cpuset_enabled: bool,
    thread_affinity: M,
    apply_fn: F,
    ensure_dir: D,
    bound: bool,
    after: CacheModel,
)
    requires
        task_outcome(
            before,
            tid,
            pid,
            pkg,
            name,
            cpuset_enabled,
            thread_affinity,
            apply_fn,
            ensure_dir,
            bound,
            after,
        ),
    ensures
        after.pkgs == before.pkgs,
        after.tasks.remove(tid) == before.tasks.remove(tid),
        bound ==> after.tasks.contains_key(tid),
{
    assert(after.tasks.remove(tid) =~= before.tasks.remove(tid));
}

/// What becomes of a thread whose rule is given and does not have to yield to the
/// binding that the thread has. The answers are those that the outside gives for that
/// rule: whether the thread is dead, the set in force where it is not the rule's, and
/// the directory that is made for that set. A dead thread is not bound and not in the
/// cache. Any other is bound, to the set in force with the directory that was made for
/// it, or none where cpusets are off; else to the rule's CPUs with the rule's directory.
pub proof fn law_rules_bind_their_threads<
    M: FnOnce(&str, &str) -> Option<ThreadAffinity>,
    F: FnOnce(i32, &CpuSet, &str) -> (bool, Option<CpuSet>),
    D: FnOnce(&CpuSet) -> String,
>(
    before: CacheModel,
    tid: i32,
    pid: i32,
    pkg: &str,
    name: Seq<char>,
    cpuset_enabled: bool,
    thread_affinity: M,
    apply_fn: F,
    ensure_dir: D,
    bound: bool,
    after: CacheModel,
    rule: RuleModel,
    dead: bool,
    eff: Option<CpuSet>,
    made: Seq<char>,
)
    requires
        task_outcome(
            before,
            tid,
            pid,
            pkg,
            name,
            cpuset_enabled,
            thread_affinity,
            apply_fn,
            ensure_dir,
            bound,
            after,
        ),
        forall|n: &str, r: Option<ThreadAffinity>|
            n@ == name && #[trigger] call_ensures(thread_affinity, (pkg, n), r) ==> r is Some
                && r->0@ == rule,
        rule.is_thread_rule || !before.tasks.contains_key(tid)
            || !before.tasks[tid].is_thread_rule,
        forall|cpus: &CpuSet, dir: &str, reply: (bool, Option<CpuSet>)|
            cpus@ == rule.cpus && dir@ == rule.cpuset_dir && #[trigger] call_ensures(
                apply_fn,
                (tid, cpus, dir),
                reply,
            ) ==> reply == (dead, eff),
        forall|e: &CpuSet, d: String| #[trigger] call_ensures(ensure_dir, (e,), d) ==> d@ == made,
    ensures
        bound == !dead,
        after.pkgs == before.pkgs,
        after.tasks.contains_key(tid) == !dead,
        !dead ==> {
            let t = after.tasks[tid];
            &&& t.pid == pid && t.base_cpus == rule.cpus && t.is_thread_rule
                == rule.is_thread_rule
            &&& eff is None ==> t.cpus == rule.cpus && t.cpuset_dir == rule.cpuset_dir
            &&& eff is Some ==> t.cpus == eff->0@ && t.cap == eff->0@
            &&& eff is Some && cpuset_enabled ==> t.cpuset_dir == made
            &&& eff is Some && !cpuset_enabled ==> t.cpuset_dir.len() == 0
        },
{
}

/// The name by which a rule is looked up is the thread's own exactly where it counts.
pub proof fn law_trusted_names_count(comm: Seq<char>, has_thread_rules: bool, trust_comm: bool)
    ensures
        has_thread_rules && trust_comm ==> thread_name(comm, has_thread_rules, trust_comm) == comm,
        !(has_thread_rules && trust_comm) ==> thread_name(
            comm,
            has_thread_rules,
            trust_comm,
        ).len() == 0,
{
}

/// A name that cannot be trusted does not count, nor does any name where the
/// package has no rules for single threads: the rule is looked up without a name,
/// so that two names lead to the same calls and to the same outcomes.
pub proof fn law_untrusted_names_do_not_count<
    M: FnOnce(&str, &str) -> Option<ThreadAffinity>,
    F: FnOnce(i32, &CpuSet, &str) -> (bool, Option<CpuSet>),
    D: FnOnce(&CpuSet) -> String,
>(
    before: CacheModel,
    tid: i32,
    pid: i32,
    pkg: &str,
    one: Seq<char>,
    other: Seq<char>,
    has_thread_rules: bool,
    trust_comm: bool,
    cpuset_enabled: bool,
    thread_affinity: M,
    apply_fn: F,
    ensure_dir: D,
)
    requires
        !has_thread_rules || !trust_comm,
    ensures
        ({
            let a = thread_name(one, has_thread_rules, trust_comm);
            let b = thread_name(other, has_thread_rules, trust_comm);
            &&& a == Seq::<char>::empty()
            &&& forall|cpus: CpuSet, dir: Seq<char>|
                is_apply_call(before, tid, pkg, a, thread_affinity, cpus, dir) == is_apply_call(
                    before,
                    tid,
                    pkg,
                    b,
                    thread_affinity,
                    cpus,
                    dir,
                )
            &&& forall|eff: CpuSet|
                is_dir_call(
                    before,
                    tid,
                    pkg,
                    a,
                    cpuset_enabled,
                    thread_affinity,
                    apply_fn,
                    eff,
                ) == is_dir_call(
                    before,
                    tid,
                    pkg,
                    b,
                    cpuset_enabled,
                    thread_affinity,
                    apply_fn,
                    eff,
                )
            &&& forall|bound: bool, after: CacheModel|
                task_outcome(
                    before,
                    tid,
                    pid,
                    pkg,
                    a,
                    cpuset_enabled,
                    thread_affinity,
                    apply_fn,
                    ensure_dir,
                    bound,
                    after,
                ) == task_outcome(
                    before,
                    tid,
                    pid,
                    pkg,
                    b,
                    cpuset_enabled,
                    thread_affinity,
                    apply_fn,
                    ensure_dir,
                    bound,
                    after,
                )
        }),
{
}

/// A thread that was bound by its rule is asked to stay just there in the periods
/// that follow, as long as no limit is known and neither load nor background call
/// for other CPUs.
pub proof fn law_bound_threads_stay(
    pid: i32,
    rule: RuleModel,
    dir: Seq<char>,
    cfg: &AppConfig,
    elapsed: u64,
    ticks: Option<u64>,
)
    ensures
        ({
            let t = bound_task(pid, rule, Set::empty(), None, dir);
            &&& t.cpus == rule.cpus
            &&& t.cpuset_dir == rule.cpuset_dir
            &&& !sync::wants_ticks(t, cfg, elapsed, false) ==> sync::adjusted(
                t,
                cfg,
                elapsed,
                false,
                ticks,
            ) == t
        }),
{
}

/// Every thread in the cache is within the life time of its limit.
pub open spec fn limits_are_in_time(m: CacheModel) -> bool {
    forall|tid: i32| #[trigger] m.tasks.contains_key(tid) ==> sync::is_in_time(m.tasks[tid])
}

/// No limit in the cache is older than [`sync::CAP_TTL`], and where no limit is
/// known none has an age. It is so of an empty cache; binding a thread, forgetting
/// one and a whole period keep it so, the period where it is so of the threads that
/// are taken over, which [`sync::law_periods_keep_limits_in_time`] gives.
pub proof fn law_limits_do_not_outlive_their_time(
    m: CacheModel,
    tid: i32,
    pid: i32,
    rule: RuleModel,
    dead: bool,
    eff: Option<Set<int>>,
    dir: Seq<char>,
    runs: Seq<ThreadSync>,
)
    requires
        limits_are_in_time(m),
        forall|i: int| 0 <= i < runs.len() ==> sync::is_in_time((#[trigger] runs[i]).entry@),
    ensures
        limits_are_in_time(CacheModel { pkgs: Map::empty(), tasks: Map::empty() }),
        limits_are_in_time(applied(m, tid, pid, rule, dead, eff, dir)),
        limits_are_in_time(without_task(m, tid)),
        limits_are_in_time(without_tasks(written(m, runs), dead_in(runs))),
{
    lemma_written_in_time(m, runs);
    lemma_without_tasks(written(m, runs), dead_in(runs));
}

/// Taking over threads that are within the life time of their limits.
proof fn lemma_written_in_time(m: CacheModel, runs: Seq<ThreadSync>)
    requires
        limits_are_in_time(m),
        forall|i: int| 0 <= i < runs.len() ==> sync::is_in_time((#[trigger] runs[i]).entry@),
    ensures
        limits_are_in_time(written(m, runs)),
    decreases runs.len(),
{
    if runs.len() > 0 {
        let rest = runs.drop_last();
        assert forall|i: int| 0 <= i < rest.len() implies sync::is_in_time(
            (#[trigger] rest[i]).entry@,
        ) by {
            assert(rest[i] == runs[i]);
        }
        lemma_written_in_time(m, rest);
        assert(runs.last() == runs[runs.len() - 1]);
    }
}

/// Every package in the cache belongs to a process with a thread in it.
pub open spec fn has_no_stale_package(m: CacheModel) -> bool {
    forall|pid: i32| #[trigger] m.pkgs.contains_key(pid) ==> has_thread_of(m.tasks, pid)
}

/// Forgetting a thread leaves every other thread as it is, and every package whose
/// process has a thread left. A package goes with the last thread of its process,
/// so that no package is left behind.
pub proof fn law_forgetting_leaves_no_stale_package(m: CacheModel, tid: i32)
    ensures
        without_task(m, tid).tasks == m.tasks.remove(tid),
        forall|pid: i32| #[trigger]
            m.pkgs.contains_key(pid) && has_thread_of(m.tasks.remove(tid), pid) ==> {
                &&& without_task(m, tid).pkgs.contains_key(pid)
                &&& without_task(m, tid).pkgs[pid] == m.pkgs[pid]
            },
        has_no_stale_package(m) ==> has_no_stale_package(without_task(m, tid)),
{
    let n = without_task(m, tid);
    if m.tasks.contains_key(tid) {
        let gone = m.tasks[tid].pid;
        assert forall|pid: i32| has_no_stale_package(m) && #[trigger]
            n.pkgs.contains_key(pid) implies has_thread_of(n.tasks, pid) by {
            if pid != gone {
                assert(m.pkgs.contains_key(pid));
                let other = choose|x: i32| #[trigger]
                    m.tasks.contains_key(x) && m.tasks[x].pid == pid;
                assert(n.tasks.contains_key(other));
            }
        }
    } else {
        assert(m.tasks.remove(tid) =~= m.tasks);
    }
}

/// Forgetting several threads takes away exactly those.
proof fn lemma_without_tasks(m: CacheModel, tids: Seq<i32>)
    ensures
        forall|tid: i32| #[trigger]
            without_tasks(m, tids).tasks.contains_key(tid) <==> m.tasks.contains_key(tid)
                && !tids.contains(tid),
        forall|tid: i32| #[trigger]
            without_tasks(m, tids).tasks.contains_key(tid) ==> without_tasks(m, tids).tasks[tid]
                == m.tasks[tid],
    decreases tids.len(),
{
    if tids.len() > 0 {
        let rest = tids.drop_last();
        let p = without_tasks(m, rest);
        lemma_without_tasks(m, rest);
        law_forgetting_leaves_no_stale_package(p, tids.last());
        assert forall|tid: i32| tids.contains(tid) <==> rest.contains(tid) || tid
            == tids.last() by {
            if tids.contains(tid) {
                let i = tids.index_of(tid);
                if i < rest.len() {
                    assert(rest[i] == tid);
                }
            }
            if rest.contains(tid) {
                assert(tids[rest.index_of(tid)] == tid);
            }
            assert(tids[tids.len() - 1] == tids.last());
        }
    }
}

/// Taking over what runs have come to keeps the threads of the cache and its
/// packages, and changes no thread without a run.
proof fn lemma_written(m: CacheModel, runs: Seq<ThreadSync>)
    ensures
        written(m, runs).pkgs == m.pkgs,
        written(m, runs).tasks.dom() == m.tasks.dom(),
        forall|tid: i32| #[trigger]
            m.tasks.contains_key(tid) && !has_run(runs, tid) ==> written(m, runs).tasks[tid]
                == m.tasks[tid],
    decreases runs.len(),
{
    if runs.len() > 0 {
        let rest = runs.drop_last();
        lemma_written(m, rest);
        assert(written(m, runs).tasks.dom() =~= m.tasks.dom());
        assert forall|tid: i32| #[trigger]
            m.tasks.contains_key(tid) && !has_run(runs, tid) implies written(m, runs).tasks[tid]
            == m.tasks[tid] by {
            assert(runs[runs.len() - 1] == runs.last());
            if has_run(rest, tid) {
                let i = choose|i: int| 0 <= i < rest.len() && (#[trigger] rest[i]).tid == tid;
                assert(runs[i].tid == tid);
            }
        }
    }
}

/// The finished run of a thread with no other run is what the cache takes over.
proof fn lemma_written_entry(m: CacheModel, runs: Seq<ThreadSync>, i: int)
    requires
        0 <= i < runs.len(),
        runs[i].phase == SyncPhase::Done,
        m.tasks.contains_key(runs[i].tid),
        forall|j: int| 0 <= j < runs.len() && j != i ==> (#[trigger] runs[j]).tid != runs[i].tid,
    ensures
        written(m, runs).tasks[runs[i].tid] == runs[i].entry@,
    decreases runs.len(),
{
    let rest = runs.drop_last();
    lemma_written(m, rest);
    assert(runs.last() == runs[runs.len() - 1]);
    assert(written(m, rest).tasks.dom().contains(runs[i].tid));
    if i < rest.len() {
        assert(rest[i] == runs[i]);
        assert forall|j: int| 0 <= j < rest.len() && j != i implies (#[trigger] rest[j]).tid
            != rest[i].tid by {
            assert(rest[j] == runs[j]);
        }
        lemma_written_entry(m, rest, i);
    }
}

/// A period ends with exactly the dead threads gone, and with every other thread
/// of the cache still there. One that is left has what its finished run has come
/// to, no thread having two runs, and one without a run is as it was.
pub proof fn law_periods_forget_the_dead(m: CacheModel, runs: Seq<ThreadSync>)
    requires
        forall|i: int, j: int|
            0 <= i < j < runs.len() ==> (#[trigger] runs[i]).tid != (#[trigger] runs[j]).tid,
    ensures
        ({
            let end = without_tasks(written(m, runs), dead_in(runs));
            &&& forall|tid: i32| #[trigger]
                end.tasks.contains_key(tid) <==> m.tasks.contains_key(tid) && !dead_in(
                    runs,
                ).contains(tid)
            &&& forall|i: int|
                0 <= i < runs.len() && (#[trigger] runs[i]).phase == SyncPhase::Done
                    && end.tasks.contains_key(runs[i].tid) ==> end.tasks[runs[i].tid]
                    == runs[i].entry@
            &&& forall|tid: i32| #[trigger]
                end.tasks.contains_key(tid) && (forall|i: int|
                    0 <= i < runs.len() ==> (#[trigger] runs[i]).tid != tid) ==> end.tasks[tid]
                    == m.tasks[tid]
        }),
{
    let end = without_tasks(written(m, runs), dead_in(runs));
    lemma_written(m, runs);
    lemma_without_tasks(written(m, runs), dead_in(runs));
    assert forall|tid: i32| written(m, runs).tasks.contains_key(tid) <==> m.tasks.contains_key(
        tid,
    ) by {
        assert(written(m, runs).tasks.dom().contains(tid) == m.tasks.dom().contains(tid));
    }
    assert forall|i: int|
        0 <= i < runs.len() && (#[trigger] runs[i]).phase == SyncPhase::Done
            && end.tasks.contains_key(runs[i].tid) implies end.tasks[runs[i].tid]
        == runs[i].entry@ by {
        assert(m.tasks.contains_key(runs[i].tid));
        lemma_written_entry(m, runs, i);
    }
}

/// Whether one of the threads `tids` is in the cache and belongs to process `pid`.
pub open spec fn loses_thread(m: CacheModel, tids: Seq<i32>, pid: i32) -> bool {
    exists|tid: i32| #[trigger]
        tids.contains(tid) && m.tasks.contains_key(tid) && m.tasks[tid].pid == pid
}

/// Forgetting several threads takes away the packages of exactly those processes
/// that lose a thread and have none left.
proof fn lemma_packages_left(m: CacheModel, tids: Seq<i32>)
    ensures
        forall|pid: i32| #[trigger]
            without_tasks(m, tids).pkgs.contains_key(pid) <==> m.pkgs.contains_key(pid) && !(
            loses_thread(m, tids, pid) && !has_thread_of(without_tasks(m, tids).tasks, pid)),
        forall|pid: i32| #[trigger]
            without_tasks(m, tids).pkgs.contains_key(pid) ==> without_tasks(m, tids).pkgs[pid]
                == m.pkgs[pid],
    decreases tids.len(),
{
    if tids.len() > 0 {
        let rest = tids.drop_last();
        let last = tids.last();
        let p = without_tasks(m, rest);
        let q = without_tasks(m, tids);
        lemma_packages_left(m, rest);
        lemma_without_tasks(m, rest);
        law_forgetting_leaves_no_stale_package(p, last);
        assert(tids[tids.len() - 1] == last);
        assert forall|tid: i32| tids.contains(tid) <==> rest.contains(tid) || tid == last by {
            if tids.contains(tid) {
                let i = tids.index_of(tid);
                if i < rest.len() {
                    assert(rest[i] == tid);
                }
            }
            if rest.contains(tid) {
                assert(tids[rest.index_of(tid)] == tid);
            }
        }
        assert forall|pid: i32| #[trigger]
            q.pkgs.contains_key(pid) <==> m.pkgs.contains_key(pid) && !(loses_thread(
                m,
                tids,
                pid,
            ) && !has_thread_of(q.tasks, pid)) by {
            if loses_thread(m, rest, pid) {
                let x = choose|x: i32| #[trigger]
                    rest.contains(x) && m.tasks.contains_key(x) && m.tasks[x].pid == pid;
                assert(tids.contains(x));
            }
            if p.tasks.contains_key(last) && p.tasks[last].pid == pid {
                assert(tids.contains(last));
                assert(loses_thread(m, tids, pid));
                assert(has_thread_of(p.tasks, pid));
            } else {
                if has_thread_of(p.tasks, pid) {
                    let x = choose|x: i32| #[trigger]
                        p.tasks.contains_key(x) && p.tasks[x].pid == pid;
                    assert(q.tasks.contains_key(x));
                }
                if has_thread_of(q.tasks, pid) {
                    let x = choose|x: i32| #[trigger]
                        q.tasks.contains_key(x) && q.tasks[x].pid == pid;
                    assert(p.tasks.contains_key(x));
                }
                if loses_thread(m, tids, pid) {
                    let x = choose|x: i32| #[trigger]
                        tids.contains(x) && m.tasks.contains_key(x) && m.tasks[x].pid == pid;
                    assert(rest.contains(x) || x == last);
                    if !rest.contains(x) {
                        assert(p.tasks.contains_key(last));
                    }
                }
            }
        }
    }
}

/// Taking over runs that leave each thread in its process leaves it there.
proof fn lemma_written_pids(m: CacheModel, runs: Seq<ThreadSync>)
    requires
        forall|i: int|
            0 <= i < runs.len() && m.tasks.contains_key((#[trigger] runs[i]).tid)
                ==> runs[i].entry.pid == m.tasks[runs[i].tid].pid,
    ensures
        forall|tid: i32| #[trigger]
            m.tasks.contains_key(tid) ==> written(m, runs).tasks[tid].pid == m.tasks[tid].pid,
    decreases runs.len(),
{
    if runs.len() > 0 {
        let rest = runs.drop_last();
        assert forall|i: int|
            0 <= i < rest.len() && m.tasks.contains_key(
                (#[trigger] rest[i]).tid,
            ) implies rest[i].entry.pid == m.tasks[rest[i].tid].pid by {
            assert(rest[i] == runs[i]);
        }
        lemma_written_pids(m, rest);
        lemma_written(m, rest);
        assert(runs.last() == runs[runs.len() - 1]);
        assert forall|tid: i32| #[trigger]
            m.tasks.contains_key(tid) implies written(m, runs).tasks[tid].pid
            == m.tasks[tid].pid by {
            assert(written(m, rest).tasks.dom().contains(tid));
        }
    }
}

/// A package goes in a period exactly where its process lost a thread and has none
/// left; every other package stays as it is. A run leaves its thread in its process,
/// which [`sync::law_periods_keep_what_the_rule_gave`] gives.
pub proof fn law_periods_forget_packages_without_threads(m: CacheModel, runs: Seq<ThreadSync>)
    requires
        forall|i: int|
            0 <= i < runs.len() && m.tasks.contains_key((#[trigger] runs[i]).tid)
                ==> runs[i].entry.pid == m.tasks[runs[i].tid].pid,
    ensures
        ({
            let end = without_tasks(written(m, runs), dead_in(runs));
            &&& forall|pid: i32| #[trigger]
                end.pkgs.contains_key(pid) <==> m.pkgs.contains_key(pid) && !(loses_thread(
                    m,
                    dead_in(runs),
                    pid,
                ) && !has_thread_of(end.tasks, pid))
            &&& forall|pid: i32| #[trigger]
                end.pkgs.contains_key(pid) ==> end.pkgs[pid] == m.pkgs[pid]
        }),
{
    let w = written(m, runs);
    let dead = dead_in(runs);
    lemma_written(m, runs);
    lemma_written_pids(m, runs);
    lemma_packages_left(w, dead);
    assert forall|pid: i32| loses_thread(w, dead, pid) == loses_thread(m, dead, pid) by {
        if loses_thread(w, dead, pid) {
            let x = choose|x: i32| #[trigger]
                dead.contains(x) && w.tasks.contains_key(x) && w.tasks[x].pid == pid;
            assert(m.tasks.dom().contains(x));
            assert(m.tasks.contains_key(x));
            assert(dead.contains(x));
        }
        if loses_thread(m, dead, pid) {
            let x = choose|x: i32| #[trigger]
                dead.contains(x) && m.tasks.contains_key(x) && m.tasks[x].pid == pid;
            assert(w.tasks.dom().contains(x));
            assert(dead.contains(x));
        }
    }
}

/// Only a thread with a run is found dead.
proof fn lemma_dead_have_runs(runs: Seq<ThreadSync>, tid: i32)
    requires
        dead_in(runs).contains(tid),
    ensures
        has_run(runs, tid),
    decreases runs.len(),
{
    let rest = runs.drop_last();
    assert(runs[runs.len() - 1] == runs.last());
    if dead_in(rest).contains(tid) {
        lemma_dead_have_runs(rest, tid);
        let i = choose|i: int| 0 <= i < rest.len() && (#[trigger] rest[i]).tid == tid;
        assert(runs[i].tid == tid);
    } else {
        let i = dead_in(runs).index_of(tid);
        if i < dead_in(rest).len() {
            assert(dead_in(rest)[i] == tid);
        }
    }
}

/// A thread whose binding the kernel refused is left alone in later periods, until
/// a rule binds it anew: the cache keeps what it has of it.
pub proof fn law_refused_threads_are_left_alone(
    m: CacheModel,
    tid: i32,
    runs: Seq<ThreadSync>,
    cfg: &AppConfig,
    elapsed: u64,
    background: Seq<i32>,
    starts: Seq<ThreadSync>,
)
    requires
        m.tasks.contains_key(tid),
        m.tasks[tid].failed,
        forall|i: int|
            0 <= i < starts.len() ==> is_start_of(
                #[trigger] starts[i],
                m,
                cfg,
                elapsed,
                background,
            ),
        runs.len() == starts.len(),
        forall|i: int| 0 <= i < runs.len() ==> (#[trigger] runs[i]).tid == starts[i].tid,
    ensures
        without_tasks(written(m, runs), dead_in(runs)).tasks.contains_key(tid),
        without_tasks(written(m, runs), dead_in(runs)).tasks[tid] == m.tasks[tid],
{
    lemma_written(m, runs);
    lemma_without_tasks(written(m, runs), dead_in(runs));
    if has_run(runs, tid) {
        let i = choose|i: int| 0 <= i < runs.len() && (#[trigger] runs[i]).tid == tid;
        assert(is_start_of(starts[i], m, cfg, elapsed, background));
    }
    if dead_in(runs).contains(tid) {
        lemma_dead_have_runs(runs, tid);
    }
    assert(written(m, runs).tasks.dom().contains(tid));
}

/// A process that the cache knows is what the cache says, whatever the thread's name.
/// Any other is the package that the name belongs to, with thread rules exactly where
/// the configuration lists that package among those with such rules; and it is unknown
/// where the name belongs to none.
pub proof fn law_cached_packages_come_first(
    m: CacheModel,
    pid: i32,
    comm: Seq<char>,
    cfg: &AppConfig,
)
    ensures
        m.pkgs.contains_key(pid) ==> looked_up(m, pid, comm, cfg) == Some(m.pkgs[pid]),
        !m.pkgs.contains_key(pid) ==> {
            let found = bpf::package_for(comm, cfg.pkgs());
            &&& looked_up(m, pid, comm, cfg) is Some <==> found is Some
            &&& found is Some ==> looked_up(m, pid, comm, cfg) == Some(
                (
                    found->0,
                    exists|i: int|
                        0 <= i < cfg.thread_rule_pkgs@.len() && (
                        #[trigger] cfg.thread_rule_pkgs@[i])@ == found->0,
                ),
            )
        },
        cfg.pkgs().len() == cfg.pkg_set@.len(),
        forall|i: int|
            0 <= i < cfg.pkg_set@.len() ==> #[trigger] cfg.pkgs()[i] == cfg.pkg_set@[i]@,
{
    if let Some(p) = bpf::package_for(comm, cfg.pkgs()) {
        let v = crate::text::string_views(cfg.thread_rule_pkgs@);
        assert(forall|i: int|
            0 <= i < cfg.thread_rule_pkgs@.len() ==> #[trigger] v[i]
                == cfg.thread_rule_pkgs@[i]@);
        if cfg.has_thread_rules(p) {
            let i = v.index_of(p);
            assert(v[i] == p);
            assert(cfg.thread_rule_pkgs@[i]@ == p);
        }
        if exists|i: int|
            0 <= i < cfg.thread_rule_pkgs@.len() && (#[trigger] cfg.thread_rule_pkgs@[i])@ == p {
            let i = choose|i: int|
                0 <= i < cfg.thread_rule_pkgs@.len() && (#[trigger] cfg.thread_rule_pkgs@[i])@
                    == p;
            assert(v[i] == p);
        }
    }
}

/// Forgetting a thread takes away that thread, and the package of its process exactly
/// where no other thread in the cache belongs to that process. A thread that is not in
/// the cache takes nothing away.
pub proof fn law_a_package_goes_with_the_last_thread(m: CacheModel, tid: i32, pid: i32)
    ensures
        ({
            let n = without_task(m, tid);
            let last = m.tasks.contains_key(tid) && m.tasks[tid].pid == pid && !exists|x: i32|
                x != tid && #[trigger] m.tasks.contains_key(x) && m.tasks[x].pid == pid;
            &&& n.tasks == m.tasks.remove(tid)
            &&& n.pkgs.contains_key(pid) <==> m.pkgs.contains_key(pid) && !last
            &&& n.pkgs.contains_key(pid) ==> n.pkgs[pid] == m.pkgs[pid]
        }),
{
    let n = without_task(m, tid);
    if m.tasks.contains_key(tid) {
        let rest = m.tasks.remove(tid);
        if has_thread_of(rest, pid) {
            let x = choose|x: i32| #[trigger] rest.contains_key(x) && rest[x].pid == pid;
            assert(x != tid && m.tasks.contains_key(x) && m.tasks[x].pid == pid);
        }
        if exists|x: i32| x != tid && #[trigger] m.tasks.contains_key(x) && m.tasks[x].pid == pid {
            let x = choose|x: i32|
                x != tid && #[trigger] m.tasks.contains_key(x) && m.tasks[x].pid == pid;
            assert(rest.contains_key(x) && rest[x].pid == pid);
        }
    } else {
        assert(m.tasks.remove(tid) =~= m.tasks);
    }
}

/// What the cache holds of a thread after it was bound by a rule: its process, the
/// rule's CPUs to return to, and whether the rule names the thread; a clean record, with
/// no refusal, no sample and a limit that is young. Its CPUs and its limit are the set
/// in force where there is one, with the directory for that set; else the rule's CPUs
/// and directory, with the limit that was known. A dead thread is not in the cache.
pub proof fn law_bindings_are_taken_down(
    m: CacheModel,
    tid: i32,
    pid: i32,
    rule: RuleModel,
    dead: bool,
    eff: Option<Set<int>>,
    eff_dir: Seq<char>,
)
    ensures
        ({
            let n = applied(m, tid, pid, rule, dead, eff, eff_dir);
            let t = n.tasks[tid];
            &&& n.pkgs == m.pkgs
            &&& n.tasks.remove(tid) == m.tasks.remove(tid)
            &&& n.tasks.contains_key(tid) == !dead
            &&& !dead ==> {
                &&& t.pid == pid
                &&& t.base_cpus == rule.cpus
                &&& t.is_thread_rule == rule.is_thread_rule
                &&& !t.failed && t.prev_ticks == 0 && t.cap_age == 0
                &&& eff is Some ==> t.cpus == eff->0 && t.cap == eff->0 && t.cpuset_dir == eff_dir
                &&& eff is None ==> t.cpus == rule.cpus && t.cpuset_dir == rule.cpuset_dir
                &&& eff is None && m.tasks.contains_key(tid) ==> t.cap == m.tasks[tid].cap
                &&& eff is None && !m.tasks.contains_key(tid) ==> t.cap == Set::<int>::empty()
            }
        }),
{
    let n = applied(m, tid, pid, rule, dead, eff, eff_dir);
    assert(n.tasks.remove(tid) =~= m.tasks.remove(tid));
}

/// A thread keeps its binding exactly where a rule that names it made that binding and
/// the new rule names only its package.
pub proof fn law_only_a_rule_for_the_thread_shields_it(m: CacheModel, tid: i32, rule: RuleModel)
    ensures
        keeps_binding(m, tid, rule) <==> !rule.is_thread_rule && m.tasks.contains_key(tid)
            && m.tasks[tid].is_thread_rule,
{
}

/// The threads that a period reports dead are exactly those with a finished run that
/// found them so, in the order of the runs.
pub proof fn law_the_dead_are_those_that_were_found_so(runs: Seq<ThreadSync>, more: Seq<ThreadSync>)
    ensures
        forall|tid: i32| #[trigger]
            dead_in(runs).contains(tid) <==> exists|i: int|
                0 <= i < runs.len() && (#[trigger] runs[i]).tid == tid && runs[i].dead
                    && runs[i].phase == SyncPhase::Done,
        dead_in(runs + more) == dead_in(runs) + dead_in(more),
{
    lemma_dead_are_found(runs);
    lemma_dead_add_up(runs, more);
}

/// The threads that are reported dead, one by one.
proof fn lemma_dead_are_found(runs: Seq<ThreadSync>)
    ensures
        forall|tid: i32| #[trigger]
            dead_in(runs).contains(tid) <==> exists|i: int|
                0 <= i < runs.len() && (#[trigger] runs[i]).tid == tid && runs[i].dead
                    && runs[i].phase == SyncPhase::Done,
    decreases runs.len(),
{
    if runs.len() > 0 {
        let rest = runs.drop_last();
        let p = dead_in(rest);
        let q = dead_in(runs);
        lemma_dead_are_found(rest);
        assert(runs.last() == runs[runs.len() - 1]);
        assert forall|tid: i32| #[trigger]
            q.contains(tid) <==> exists|i: int|
                0 <= i < runs.len() && (#[trigger] runs[i]).tid == tid && runs[i].dead
                    && runs[i].phase == SyncPhase::Done by {
            let found = runs.last().dead && runs.last().phase == SyncPhase::Done;
            if found {
                vstd::seq_lib::lemma_seq_contains_after_push(p, runs.last().tid, tid);
            }
            if p.contains(tid) {
                let i = choose|i: int|
                    0 <= i < rest.len() && (#[trigger] rest[i]).tid == tid && rest[i].dead
                        && rest[i].phase == SyncPhase::Done;
                assert(runs[i] == rest[i]);
            }
            if exists|i: int|
                0 <= i < runs.len() && (#[trigger] runs[i]).tid == tid && runs[i].dead
                    && runs[i].phase == SyncPhase::Done {
                let i = choose|i: int|
                    0 <= i < runs.len() && (#[trigger] runs[i]).tid == tid && runs[i].dead
                        && runs[i].phase == SyncPhase::Done;
                if i < rest.len() {
                    assert(rest[i] == runs[i]);
                    assert(p.contains(tid));
                }
            }
        }
    }
}

/// The dead of two batches of runs are those of the one and then those of the other.
proof fn lemma_dead_add_up(a: Seq<ThreadSync>, b: Seq<ThreadSync>)
    ensures
        dead_in(a + b) == dead_in(a) + dead_in(b),
    decreases b.len(),
{
    if b.len() == 0 {
        assert(a + b =~= a);
        assert(dead_in(a) + dead_in(b) =~= dead_in(a));
    } else {
        lemma_dead_add_up(a, b.drop_last());
        assert((a + b).drop_last() =~= a + b.drop_last());
        assert((a + b).last() == b.last());
        assert(dead_in(a + b) =~= dead_in(a) + dead_in(b));
    }
}

/// The operations on the cache, as they are carried out. A new cache and a cleared one
/// hold nothing. Forgetting a thread takes away that thread, and a package exactly where
/// the thread was the last of its process.
pub proof fn law_the_cache_forgets_what_it_is_told(
    fresh: ProcCache,
    cleared: &mut ProcCache,
    c: &mut ProcCache,
    tid: i32,
    pid: i32,
)
    requires
        call_ensures(ProcCache::new, (), fresh),
        call_ensures(ProcCache::clear, (cleared,), ()),
        call_ensures(ProcCache::task_del, (c, tid), ()),
    ensures
        !fresh@.tasks.contains_key(tid) && !fresh@.pkgs.contains_key(pid),
        !final(cleared)@.tasks.contains_key(tid) && !final(cleared)@.pkgs.contains_key(pid),
        final(c)@.tasks == old(c)@.tasks.remove(tid),
        ({
            let m = old(c)@;
            let last = m.tasks.contains_key(tid) && m.tasks[tid].pid == pid && !exists|x: i32|
                x != tid && #[trigger] m.tasks.contains_key(x) && m.tasks[x].pid == pid;
            &&& final(c)@.pkgs.contains_key(pid) <==> m.pkgs.contains_key(pid) && !last
            &&& final(c)@.pkgs.contains_key(pid) ==> final(c)@.pkgs[pid] == m.pkgs[pid]
        }),
{
    law_a_package_goes_with_the_last_thread(old(c)@, tid, pid);
}

/// Looking a process up twice gives the same both times, whatever the thread's name is
/// the second time, as the first look is remembered; and it touches no other process and
/// no thread.
pub proof fn law_lookups_are_remembered(
    first: &mut ProcCache,
    second: &mut ProcCache,
    pid: i32,
    comm: &str,
    other: &str,
    cfg: &AppConfig,
    one: Option<(String, bool)>,
    two: Option<(String, bool)>,
)
    requires
        call_ensures(ProcCache::pkg_lookup_comm, (first, pid, comm, cfg), one),
        old(second)@ == final(first)@,
        call_ensures(ProcCache::pkg_lookup_comm, (second, pid, other, cfg), two),
        one is Some,
    ensures
        two is Some,
        two.deep_view() == one.deep_view(),
        final(second)@.tasks == old(first)@.tasks,
        final(first)@.pkgs.remove(pid) == old(first)@.pkgs.remove(pid),
        final(second)@.pkgs =~= final(first)@.pkgs,
        old(first)@.pkgs.contains_key(pid) ==> final(first)@.pkgs == old(first)@.pkgs,
{
    let m = old(first)@;
    let (a, b) = one->0;
    let (c, d) = two->0;
    assert(looked_up(m, pid, comm@, cfg) == Some((a@, b)));
    assert(final(first)@.pkgs.remove(pid) =~= m.pkgs.remove(pid));
    if m.pkgs.contains_key(pid) {
        assert(final(first)@.pkgs =~= m.pkgs);
    }
    assert(looked_up(old(second)@, pid, other@, cfg) == Some((a@, b)));
}

/// A period, as it ends. What it returns is exactly the threads whose finished runs found
/// them dead. These are gone from the cache and no others are; a thread that is left has
/// what its finished run has come to, no thread having two runs.
pub proof fn law_periods_end_with_the_living(
    c: &mut ProcCache,
    runs: &Vec<ThreadSync>,
    dead: Vec<i32>,
    tid: i32,
)
    requires
        call_ensures(ProcCache::affinity_sync, (c, runs), dead),
        forall|i: int, j: int|
            0 <= i < j < runs@.len() ==> (#[trigger] runs@[i]).tid != (#[trigger] runs@[j]).tid,
    ensures
        dead@.contains(tid) <==> exists|i: int|
            0 <= i < runs@.len() && (#[trigger] runs@[i]).tid == tid && runs@[i].dead
                && runs@[i].phase == SyncPhase::Done,
        final(c)@.tasks.contains_key(tid) <==> old(c)@.tasks.contains_key(tid) && !dead@.contains(
            tid,
        ),
        forall|i: int|
            0 <= i < runs@.len() && (#[trigger] runs@[i]).tid == tid && runs@[i].phase
                == SyncPhase::Done && final(c)@.tasks.contains_key(tid) ==> final(c)@.tasks[tid]
                == runs@[i].entry@,
        final(c)@.tasks.contains_key(tid) && (forall|i: int|
            0 <= i < runs@.len() ==> (#[trigger] runs@[i]).tid != tid) ==> final(c)@.tasks[tid]
            == old(c)@.tasks[tid],
{
    law_the_dead_are_those_that_were_found_so(runs@, Seq::empty());
    law_periods_forget_the_dead(old(c)@, runs@);
}

/// The models leave nothing out: what a model says of a thread, a rule or the cache is
/// what the fields hold.
pub proof fn law_models_leave_nothing_out(
    t: TaskEntry,
    r: ThreadAffinity,
    c: ProcCache,
    tid: i32,
    pid: i32,
)
    ensures
        t@.pid == t.pid && t@.cpus == t.cpus@ && t@.cpuset_dir == t.cpuset_dir@,
        t@.is_thread_rule == t.is_thread_rule && t@.failed == t.failed,
        t@.base_cpus == t.base_cpus@ && t@.prev_ticks == t.prev_ticks,
        t@.cap == t.cap@ && t@.cap_age == t.cap_age,
        r@.cpus == r.cpus@ && r@.cpuset_dir == r.cpuset_dir@ && r@.is_thread_rule
            == r.is_thread_rule,
        c@.tasks.contains_key(tid) == c.tasks@.contains_key(tid),
        c.tasks@.contains_key(tid) ==> c@.tasks[tid] == c.tasks@[tid]@,
        c@.pkgs.contains_key(pid) == c.pkgs@.contains_key(pid),
        c.pkgs@.contains_key(pid) ==> c@.pkgs[pid] == (c.pkgs@[pid].0@, c.pkgs@[pid].1),
{
}

/// A period starts with one run for each thread that is not refused, and none for any
/// other. A run has the thread's own record, adjusted where no sample is needed, the time
/// since the last period, and whether the thread's process is in the background.
pub proof fn law_periods_start_with_every_thread(
    c: &ProcCache,
    cfg: &AppConfig,
    elapsed_ticks: u64,
    background: &Vec<i32>,
    runs: Vec<ThreadSync>,
    tid: i32,
    i: int,
)
    requires
        call_ensures(ProcCache::sync_runs, (c, cfg, elapsed_ticks, background), runs),
        0 <= i < runs@.len(),
    ensures
        c@.tasks.contains_key(tid) && !c@.tasks[tid].failed ==> exists|k: int|
            0 <= k < runs@.len() && (#[trigger] runs@[k]).tid == tid,
        forall|k: int| 0 <= k < runs@.len() && k != i ==> (#[trigger] runs@[k]).tid != runs@[i].tid,
        ({
            let run = runs@[i];
            let t = c@.tasks[run.tid];
            let sampled = !t.is_thread_rule && !(cfg.foreground_aware && run.is_bg)
                && cfg.load_aware && elapsed_ticks > 0;
            &&& c@.tasks.contains_key(run.tid) && !t.failed
            &&& run.elapsed_ticks == elapsed_ticks && !run.dead
            &&& run.is_bg <==> exists|k: int|
                0 <= k < background@.len() && #[trigger] background@[k] == t.pid
            &&& (run.phase == SyncPhase::Ticks) == sampled
            &&& sampled ==> run.entry@ == t
            &&& !sampled ==> run.entry.cpus@ == sync::adjusted(
                t,
                cfg,
                elapsed_ticks,
                run.is_bg,
                None,
            ).cpus
        }),
{
    let run = runs@[i];
    assert(is_start_of(run, c@, cfg, elapsed_ticks, background@));
    let t = c@.tasks[run.tid];
    if background@.contains(t.pid) {
        let k = background@.index_of(t.pid);
        assert(background@[k] == t.pid);
    }
    assert forall|k: int| 0 <= k < runs@.len() && k != i implies (#[trigger] runs@[k]).tid
        != runs@[i].tid by {
        if k < i {
            assert(runs@[k].tid != runs@[i].tid);
        } else {
            assert(runs@[i].tid != runs@[k].tid);
        }
    }
}

/// The processes that a period asks about are those with a thread in the cache, each
/// once, and none where the configuration does not ask for it.
pub proof fn law_periods_ask_about_each_process_once(
    c: &ProcCache,
    cfg: &AppConfig,
    pids: Vec<i32>,
    pid: i32,
)
    requires
        call_ensures(ProcCache::sync_pids, (c, cfg), pids),
    ensures
        (exists|i: int| 0 <= i < pids@.len() && #[trigger] pids@[i] == pid)
            <==> cfg.foreground_aware && exists|tid: i32| #[trigger]
            c@.tasks.contains_key(tid) && c@.tasks[tid].pid == pid,
        forall|i: int, j: int|
            0 <= i < j < pids@.len() ==> #[trigger] pids@[i] != #[trigger] pids@[j],
{
    assert(pids@.contains(pid) <==> exists|i: int|
        0 <= i < pids@.len() && #[trigger] pids@[i] == pid);
}

/// What is taken down of a binding, on the fields of the cache: a dead thread is dropped,
/// any other is recorded under its process with its rule's CPUs as the base and no sample;
/// the set in force is its target and limit, else its rule's set is the target and an
/// earlier limit stays. No other thread comes or goes.
pub proof fn law_records_are_kept_in_the_cache(
    c: &mut ProcCache,
    tid: i32,
    pid: i32,
    rule: ThreadAffinity,
    dead: bool,
    eff: Option<CpuSet>,
    eff_dir: String,
    live: bool,
)
    requires
        call_ensures(ProcCache::task_record, (c, tid, pid, rule, dead, eff, eff_dir), live),
    ensures
        live == !dead,
        final(c).tasks@.contains_key(tid) == !dead,
        !dead ==> {
            let t = final(c).tasks@[tid];
            &&& t.pid == pid && t.base_cpus@ == rule.cpus@ && t.is_thread_rule
                == rule.is_thread_rule
            &&& !t.failed && t.prev_ticks == 0 && t.cap_age == 0
            &&& eff is Some ==> t.cpus@ == eff->0@ && t.cap@ == eff->0@ && t.cpuset_dir@
                == eff_dir@
            &&& eff is None ==> t.cpus@ == rule.cpus@ && t.cpuset_dir@ == rule.cpuset_dir@
            &&& eff is None && old(c).tasks@.contains_key(tid) ==> t.cap@ == old(c).tasks@[tid].cap@
            &&& eff is None && !old(c).tasks@.contains_key(tid) ==> t.cap@ == Set::<int>::empty()
        },
        forall|x: i32|
            x != tid ==> (#[trigger] final(c).tasks@.contains_key(x) == old(c).tasks@.contains_key(
                x,
            )),
{
    let m = old(c)@;
    let n = final(c)@;
    assert(n == applied(m, tid, pid, rule@, dead, eff.deep_view(), eff_dir@));
    assert(n.tasks.contains_key(tid) == final(c).tasks@.contains_key(tid));
    assert(m.tasks.contains_key(tid) == old(c).tasks@.contains_key(tid));
    if !dead {
        assert(n.tasks[tid] == final(c).tasks@[tid]@);
    }
    if m.tasks.contains_key(tid) {
        assert(m.tasks[tid] == old(c).tasks@[tid]@);
    }
    if eff is Some {
        assert(eff.deep_view() == Some(eff->0@));
    }
    assert forall|x: i32| x != tid implies (
    #[trigger] final(c).tasks@.contains_key(x) == old(c).tasks@.contains_key(x)) by {
        assert(n.tasks.contains_key(x) == m.tasks.contains_key(x));
        assert(n.tasks.contains_key(x) == final(c).tasks@.contains_key(x));
        assert(m.tasks.contains_key(x) == old(c).tasks@.contains_key(x));
    }
}

/// What a binding asks for, and no more: the rule for the package and the name that counts;
/// with a rule that is to be applied, a binding to that rule's CPUs in that rule's
/// directory; and only with cpusets on and a living thread a directory for the set in
/// force. Callbacks that can answer these can be handed in.
pub proof fn law_bindings_ask_for_what_rules_say<M, F, D>(
    c: &mut ProcCache,
    tid: i32,
    pid: i32,
    pkg: &str,
    comm: &str,
    has_thread_rules: bool,
    cfg: &AppConfig,
    trust_comm: bool,
    thread_affinity: M,
    apply_fn: F,
    ensure_dir: D,
    name: Seq<char>,
) where
    M: FnOnce(&str, &str) -> Option<ThreadAffinity>,
    F: FnOnce(i32, &CpuSet, &str) -> (bool, Option<CpuSet>),
    D: FnOnce(&CpuSet) -> String,

    requires
        has_thread_rules && trust_comm ==> name == comm@,
        !(has_thread_rules && trust_comm) ==> name.len() == 0,
        forall|n: &str| n@ == name ==> #[trigger] call_requires(thread_affinity, (pkg, n)),
        forall|n: &str, r: ThreadAffinity, dir: &str|
            #![trigger
                call_ensures(thread_affinity, (pkg, n), Some(r)),
                call_requires(apply_fn, (tid, &r.cpus, dir))
            ]
            n@ == name && call_ensures(thread_affinity, (pkg, n), Some(r)) && dir@
                == r.cpuset_dir@ && (r.is_thread_rule || !old(c)@.tasks.contains_key(tid)
                || !old(c)@.tasks[tid].is_thread_rule) ==> call_requires(
                apply_fn,
                (tid, &r.cpus, dir),
            ),
        cfg.topo.cpuset_enabled ==> forall|n: &str, r: ThreadAffinity, dir: &str, eff: &CpuSet|
            #![trigger
                call_ensures(thread_affinity, (pkg, n), Some(r)),
                call_ensures(apply_fn, (tid, &r.cpus, dir), (false, Some(*eff)))
            ]
            n@ == name && call_ensures(thread_affinity, (pkg, n), Some(r)) && dir@
                == r.cpuset_dir@ && call_ensures(
                apply_fn,
                (tid, &r.cpus, dir),
                (false, Some(*eff)),
            ) ==> call_requires(ensure_dir, (eff,)),
    ensures
        call_requires(
            ProcCache::task_apply::<M, F, D>,
            (
                c,
                tid,
                pid,
                pkg,
                comm,
                has_thread_rules,
                cfg,
                trust_comm,
                thread_affinity,
                apply_fn,
                ensure_dir,
            ),
        ),
{
    let m = old(c)@;
    assert(name =~= thread_name(comm@, has_thread_rules, trust_comm));
    assert forall|cpus: &CpuSet, dir: &str|
        is_apply_call(m, tid, pkg, name, thread_affinity, *cpus, dir@) implies #[trigger]
        call_requires(apply_fn, (tid, cpus, dir)) by {
        let r = choose|r: ThreadAffinity| #[trigger]
            applies_rule(m, tid, pkg, name, thread_affinity, r) && *cpus == r.cpus && dir@
                == r.cpuset_dir@;
        let n = choose|n: &str| n@ == name && #[trigger]
            call_ensures(thread_affinity, (pkg, n), Some(r));
        assert(call_ensures(thread_affinity, (pkg, n), Some(r)));
    }
    assert forall|eff: &CpuSet|
        is_dir_call(
            m,
            tid,
            pkg,
            name,
            cfg.topo.cpuset_enabled,
            thread_affinity,
            apply_fn,
            *eff,
        ) implies #[trigger] call_requires(ensure_dir, (eff,)) by {
        let (cpus, dir) = choose|cpus: &CpuSet, dir: &str|
            is_apply_call(m, tid, pkg, name, thread_affinity, *cpus, dir@) && #[trigger]
            call_ensures(apply_fn, (tid, cpus, dir), (false, Some(*eff)));
        let r = choose|r: ThreadAffinity| #[trigger]
            applies_rule(m, tid, pkg, name, thread_affinity, r) && *cpus == r.cpus && dir@
                == r.cpuset_dir@;
        let n = choose|n: &str| n@ == name && #[trigger]
            call_ensures(thread_affinity, (pkg, n), Some(r));
        assert(call_ensures(thread_affinity, (pkg, n), Some(r)));
    }
}

} // verus!
