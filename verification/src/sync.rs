//! One period of one bound thread: the decisions that keep it on its CPUs as its
//! process goes to the background, its load changes and CPUs come and go.

use vstd::prelude::*;

use crate::bind::AffinityResult;
use crate::config::AppConfig;
use crate::cpuset;
use crate::cpuset::CpuSet;
use crate::proccache::{TaskEntry, TaskModel};
use crate::process;
use crate::process::load_level;

verus! {

/// How many periods a limit that the kernel set on a thread is believed. After
/// that the configured CPUs are tried again, so that a thread gets back what it
/// was denied only for a while.
pub const CAP_TTL: u8 = 3;

/// Load level from which on a thread gets the fastest CPUs as well.
pub const HIGH_LOAD: i32 = 8;

/// Load level up to which a thread is kept on slow CPUs.
pub const LOW_LOAD: i32 = 2;

// ---------------------------------------------------------------------------
// Adjusting a target
// ---------------------------------------------------------------------------

/// `want` within the limit `cap`, where one is known.
pub open spec fn clamped(cap: Set<int>, want: Set<int>) -> Set<int> {
    if cap == Set::<int>::empty() {
        want
    } else {
        cpuset::narrowed(want, cap)
    }
}

/// Whether a thread's CPU time is sampled: where loads count, a window has passed,
/// and neither a rule that names the thread nor its process being in the
/// background has settled its CPUs.
pub open spec fn wants_ticks(t: TaskModel, cfg: &AppConfig, elapsed: u64, is_bg: bool) -> bool {
    !t.is_thread_rule && !(cfg.foreground_aware && is_bg) && cfg.load_aware && elapsed > 0
}

/// The fastest CPUs that the machine has.
pub open spec fn fast_present(cfg: &AppConfig) -> Set<int> {
    cfg.topo.hp_core@.intersect(cfg.topo.present_cpus@)
}

/// The CPUs that suit a thread's load between two samples: the rule's and the
/// fastest where the load is high, the slowest where it is low, else the rule's.
/// The first sample says nothing yet.
pub open spec fn wanted_by_load(
    t: TaskModel,
    cfg: &AppConfig,
    elapsed: u64,
    ticks: Option<u64>,
) -> Set<int> {
    match ticks {
        Some(now) if t.prev_ticks > 0 => {
            let level = process::level_of(now, t.prev_ticks, elapsed);
            if level >= HIGH_LOAD && fast_present(cfg) != Set::<int>::empty() {
                t.base_cpus.union(fast_present(cfg))
            } else if level <= LOW_LOAD && cfg.topo.e_core@ != Set::<int>::empty() {
                cfg.topo.e_core@
            } else {
                t.base_cpus
            }
        },
        _ => t.base_cpus,
    }
}

/// The CPUs that a thread is to run on in this period. A thread that a rule names
/// stays where it is. One of a background process goes to the slowest CPUs, where
/// the configuration asks for it. Any other goes where its load suits. The limit
/// that the kernel set is kept throughout.
pub open spec fn target_of(
    t: TaskModel,
    cfg: &AppConfig,
    elapsed: u64,
    is_bg: bool,
    ticks: Option<u64>,
) -> Set<int> {
    if t.is_thread_rule {
        t.cpus
    } else if cfg.foreground_aware && is_bg {
        let want = clamped(t.cap, cfg.topo.e_core@);
        if want == Set::<int>::empty() {
            t.cpus
        } else {
            want
        }
    } else if wants_ticks(t, cfg, elapsed, is_bg) {
        clamped(t.cap, wanted_by_load(t, cfg, elapsed, ticks))
    } else {
        clamped(t.cap, t.base_cpus)
    }
}

/// A thread with its target for this period, and with the sample taken down. Its
/// directory is still that of the target before.
pub open spec fn adjusted(
    t: TaskModel,
    cfg: &AppConfig,
    elapsed: u64,
    is_bg: bool,
    ticks: Option<u64>,
) -> TaskModel {
    TaskModel {
        cpus: target_of(t, cfg, elapsed, is_bg, ticks),
        prev_ticks: match ticks {
            Some(now) if wants_ticks(t, cfg, elapsed, is_bg) => now,
            _ => t.prev_ticks,
        },
        ..t
    }
}

/// Whether the growth from one sample to the next can be turned into a percentage.
pub open spec fn is_measurable(prev_ticks: u64, ticks: Option<u64>) -> bool {
    prev_ticks > 0 && ticks is Some ==> (ticks->0 - prev_ticks) * 100 <= u64::MAX
}

impl TaskEntry {
    /// `want` within the limit that is known for the thread.
    fn clamp(&self, want: &CpuSet) -> (r: CpuSet)
        ensures
            r@ == clamped(self.cap@, want@),
    {
        if self.cap.is_empty() {
            *want
        } else {
            want.narrow(&self.cap)
        }
    }

    /// Whether the thread's CPU time is to be sampled in this period.
    pub fn samples_load(&self, cfg: &AppConfig, elapsed_ticks: u64, is_bg: bool) -> (b: bool)
        ensures
            b == wants_ticks(self@, cfg, elapsed_ticks, is_bg),
    {
        !self.is_thread_rule && !(cfg.foreground_aware && is_bg) && cfg.load_aware && elapsed_ticks
            > 0
    }

    /// Sets the thread's target for this period. `is_bg` says whether its process
    /// is in the background, `ticks` is its CPU time where that was sampled, and
    /// `elapsed_ticks` the time since the last sample. Whether the target is a new
    /// one, whose directory is to be made. Nothing but the target and the sample
    /// changes, and the target stays within a known limit.
    pub fn adjust_target(
        &mut self,
        cfg: &AppConfig,
        elapsed_ticks: u64,
        is_bg: bool,
        ticks: Option<u64>,
    ) -> (changed: bool)
        requires
            wants_ticks(old(self)@, cfg, elapsed_ticks, is_bg) ==> is_measurable(
                old(self).prev_ticks,
                ticks,
            ),
        ensures
            final(self)@ == adjusted(old(self)@, cfg, elapsed_ticks, is_bg, ticks),
            changed == (final(self).cpus@ != old(self).cpus@),
            old(self).is_thread_rule ==> final(self)@ == old(self)@,
            final(self)@ == (TaskModel {
                cpus: final(self).cpus@,
                prev_ticks: final(self).prev_ticks,
                ..old(self)@
            }),
            !old(self).is_thread_rule && old(self).cap@ != Set::<int>::empty() ==> {
                &&& final(self).cpus@.subset_of(old(self).cap@)
                &&& final(self).cpus@ != Set::<int>::empty()
            },
    {
        let ghost t = self@;
        if self.is_thread_rule {
            return false;
        }
        let want: CpuSet;
        if cfg.foreground_aware && is_bg {
            want = self.clamp(&cfg.topo.e_core);
            if want.is_empty() {
                return false;
            }
        } else {
            let mut desired = self.base_cpus;
            if cfg.load_aware && elapsed_ticks > 0 {
                if let Some(now) = ticks {
                    if self.prev_ticks > 0 {
                        let load = load_level(now, self.prev_ticks, elapsed_ticks);
                        let hp = cfg.topo.hp_core.intersection(&cfg.topo.present_cpus);
                        if load >= HIGH_LOAD && !hp.is_empty() {
                            desired.or(&hp);
                        } else if load <= LOW_LOAD && !cfg.topo.e_core.is_empty() {
                            desired = cfg.topo.e_core;
                        }
                    }
                    self.prev_ticks = now;
                }
            }
            want = self.clamp(&desired);
        }
        assert(want@ == target_of(t, cfg, elapsed_ticks, is_bg, ticks));
        proof {
            cpuset::law_equal_masks_are_equal_sets(want, self.cpus);
        }
        if want != self.cpus {
            self.cpus = want;
            true
        } else {
            false
        }
    }
}

// ---------------------------------------------------------------------------
// One period of one thread
// ---------------------------------------------------------------------------

/// What a thread's period has come to.
#[derive(Clone, Copy, PartialEq, Eq, Structural)]
pub enum SyncPhase {
    /// Waits for the thread's CPU time.
    Ticks,
    /// Waits for the cpuset directory of a new target.
    TargetDir,
    /// Waits for what came of binding the thread.
    Bind,
    /// Waits for the cpuset directory of the set that the thread has come to.
    FinalDir,
    /// Finished.
    Done,
}

/// What to do next for a thread.
pub enum SyncAction {
    /// Read the thread's CPU time.
    ReadTicks,
    /// See to it that there is a cpuset directory for `cpus`.
    EnsureDir { cpus: CpuSet },
    /// Bind the thread to `cpus`, whose directory is `dir`.
    Bind { cpus: CpuSet, dir: String },
    /// Nothing is left to do.
    Finish,
}

/// The answer to an action.
pub enum SyncReply {
    /// The thread's CPU time, where it could be read.
    Ticks { ticks: Option<u64> },
    /// Name of the directory, empty where there is none.
    Dir { name: String },
    /// What came of the binding, and the set in force where it is not the target.
    Outcome { result: AffinityResult, effective: Option<CpuSet> },
}

/// The period of one thread.
pub struct ThreadSync {
    /// The thread.
    pub tid: i32,
    /// What is kept of it.
    pub entry: TaskEntry,
    /// Time since the last sample, in ticks.
    pub elapsed_ticks: u64,
    /// Whether the thread's process is in the background.
    pub is_bg: bool,
    /// Whether the thread was found dead.
    pub dead: bool,
    /// What the period has come to.
    pub phase: SyncPhase,
}

/// The period of one thread, with a model of what is kept of it.
#[verifier::ext_equal]
pub ghost struct SyncModel {
    pub task: TaskModel,
    pub elapsed: u64,
    pub is_bg: bool,
    pub dead: bool,
    pub phase: SyncPhase,
}

/// The answer to an action, with sets of CPUs for masks and characters for texts.
pub ghost enum SyncAnswer {
    Ticks { ticks: Option<u64> },
    Dir { name: Seq<char> },
    Outcome { result: AffinityResult, effective: Option<Set<int>> },
}

impl View for ThreadSync {
    type V = SyncModel;

    open spec fn view(&self) -> SyncModel {
        SyncModel {
            task: self.entry@,
            elapsed: self.elapsed_ticks,
            is_bg: self.is_bg,
            dead: self.dead,
            phase: self.phase,
        }
    }
}

impl View for SyncReply {
    type V = SyncAnswer;

    open spec fn view(&self) -> SyncAnswer {
        match *self {
            SyncReply::Ticks { ticks } => SyncAnswer::Ticks { ticks },
            SyncReply::Dir { name } => SyncAnswer::Dir { name: name@ },
            SyncReply::Outcome { result, effective } => SyncAnswer::Outcome {
                result,
                effective: effective.deep_view(),
            },
        }
    }
}

/// The period after the thread's target was adjusted, `ticks` being its CPU time
/// where that was sampled.
pub open spec fn sync_adjusted(m: SyncModel, cfg: &AppConfig, ticks: Option<u64>) -> SyncModel {
    let task = adjusted(m.task, cfg, m.elapsed, m.is_bg, ticks);
    let moves = task.cpus != m.task.cpus;
    SyncModel {
        task: if moves && !cfg.topo.cpuset_enabled {
            TaskModel { cpuset_dir: seq![], ..task }
        } else {
            task
        },
        phase: if moves && cfg.topo.cpuset_enabled {
            SyncPhase::TargetDir
        } else {
            SyncPhase::Bind
        },
        ..m
    }
}

/// The start of a thread's period.
pub open spec fn sync_start(t: TaskModel, cfg: &AppConfig, elapsed: u64, is_bg: bool) -> SyncModel {
    let m = SyncModel { task: t, elapsed, is_bg, dead: false, phase: SyncPhase::Ticks };
    if wants_ticks(t, cfg, elapsed, is_bg) {
        m
    } else {
        sync_adjusted(m, cfg, None)
    }
}

/// Whether the limit on a thread has been believed for long enough.
pub open spec fn cap_expires(t: TaskModel) -> bool {
    t.cap_age + 1 > CAP_TTL
}

/// A thread after a binding that left `effective` in force, where that is not its
/// target: the set becomes its target and the limit to stay within. With no such
/// set the limit grows older, and is given up in favour of the rule's CPUs after
/// [`CAP_TTL`] periods. The directory is still that of the target before.
pub open spec fn settled(
    t: TaskModel,
    result: AffinityResult,
    effective: Option<Set<int>>,
) -> TaskModel {
    let t1 = TaskModel { failed: t.failed || result == AffinityResult::Failed, ..t };
    match effective {
        Some(eff) => TaskModel { cpus: eff, cap: eff, cap_age: 0, ..t1 },
        None => if t.cap == Set::<int>::empty() {
            t1
        } else if cap_expires(t) {
            TaskModel { cpus: t.base_cpus, cap: Set::empty(), cap_age: 0, ..t1 }
        } else {
            TaskModel { cap_age: (t.cap_age + 1) as u8, ..t1 }
        },
    }
}

/// Whether the directory of a thread is to be set anew after a binding.
pub open spec fn moves_dir(t: TaskModel, effective: Option<Set<int>>) -> bool {
    effective is Some || (t.cap != Set::<int>::empty() && cap_expires(t))
}

/// The period after an answer. One that the phase does not wait for changes
/// nothing.
pub open spec fn sync_next(m: SyncModel, answer: SyncAnswer, cfg: &AppConfig) -> SyncModel {
    match (m.phase, answer) {
        (SyncPhase::Ticks, SyncAnswer::Ticks { ticks }) => sync_adjusted(m, cfg, ticks),
        (SyncPhase::TargetDir, SyncAnswer::Dir { name }) => SyncModel {
            task: TaskModel { cpuset_dir: name, ..m.task },
            phase: SyncPhase::Bind,
            ..m
        },
        (SyncPhase::Bind, SyncAnswer::Outcome { result, effective }) => {
            let moves = moves_dir(m.task, effective);
            let task = settled(m.task, result, effective);
            SyncModel {
                task: if moves && !cfg.topo.cpuset_enabled {
                    TaskModel { cpuset_dir: seq![], ..task }
                } else {
                    task
                },
                dead: result == AffinityResult::Dead,
                phase: if moves && cfg.topo.cpuset_enabled {
                    SyncPhase::FinalDir
                } else {
                    SyncPhase::Done
                },
                ..m
            }
        },
        (SyncPhase::FinalDir, SyncAnswer::Dir { name }) => SyncModel {
            task: TaskModel { cpuset_dir: name, ..m.task },
            phase: SyncPhase::Done,
            ..m
        },
        _ => m,
    }
}

impl TaskEntry {
    /// Takes down what came of binding the thread. Whether its directory is to be
    /// set anew.
    fn settle(&mut self, result: AffinityResult, effective: Option<CpuSet>) -> (moves: bool)
        ensures
            final(self)@ == settled(old(self)@, result, effective.deep_view()),
            moves == moves_dir(old(self)@, effective.deep_view()),
    {
        if result == AffinityResult::Failed {
            self.failed = true;
        }
        match effective {
            Some(eff) => {
                self.cpus = eff;
                self.cap = eff;
                self.cap_age = 0;
                true
            },
            None => {
                if self.cap.is_empty() {
                    return false;
                }
                if self.cap_age >= CAP_TTL {
                    self.cap = CpuSet::new();
                    self.cap_age = 0;
                    self.cpus = self.base_cpus;
                    true
                } else {
                    self.cap_age = self.cap_age + 1;
                    false
                }
            },
        }
    }
}

impl ThreadSync {
    /// Starts the period of thread `tid`.
    pub fn new(
        tid: i32,
        entry: TaskEntry,
        cfg: &AppConfig,
        elapsed_ticks: u64,
        is_bg: bool,
    ) -> (run: ThreadSync)
        ensures
            run.tid == tid,
            run@ == sync_start(entry@, cfg, elapsed_ticks, is_bg),
    {
        let sampled = entry.samples_load(cfg, elapsed_ticks, is_bg);
        let mut run = ThreadSync {
            tid,
            entry,
            elapsed_ticks,
            is_bg,
            dead: false,
            phase: SyncPhase::Ticks,
        };
        if !sampled {
            run.adjust(cfg, None);
        }
        run
    }

    /// Adjusts the thread's target.
    fn adjust(&mut self, cfg: &AppConfig, ticks: Option<u64>)
        requires
            wants_ticks(
                old(self).entry@,
                cfg,
                old(self).elapsed_ticks,
                old(self).is_bg,
            ) ==> is_measurable(old(self).entry.prev_ticks, ticks),
        ensures
            final(self)@ == sync_adjusted(old(self)@, cfg, ticks),
            final(self).tid == old(self).tid,
    {
        let moves = self.entry.adjust_target(cfg, self.elapsed_ticks, self.is_bg, ticks);
        if moves && cfg.topo.cpuset_enabled {
            self.phase = SyncPhase::TargetDir;
        } else {
            if moves {
                self.entry.cpuset_dir = String::new();
            }
            self.phase = SyncPhase::Bind;
        }
    }

    /// What is to be done in the current phase.
    pub fn action(&self) -> (a: SyncAction)
        ensures
            match self.phase {
                SyncPhase::Ticks => a is ReadTicks,
                SyncPhase::TargetDir | SyncPhase::FinalDir => a == (SyncAction::EnsureDir {
                    cpus: self.entry.cpus,
                }),
                SyncPhase::Bind => {
                    &&& a matches SyncAction::Bind { cpus, dir }
                    &&& cpus == self.entry.cpus
                    &&& dir@ == self.entry.cpuset_dir@
                },
                SyncPhase::Done => a is Finish,
            },
    {
        match self.phase {
            SyncPhase::Ticks => SyncAction::ReadTicks,
            SyncPhase::TargetDir => SyncAction::EnsureDir { cpus: self.entry.cpus },
            SyncPhase::FinalDir => SyncAction::EnsureDir { cpus: self.entry.cpus },
            SyncPhase::Bind => SyncAction::Bind {
                cpus: self.entry.cpus,
                dir: self.entry.cpuset_dir.clone(),
            },
            SyncPhase::Done => SyncAction::Finish,
        }
    }

    /// Takes the answer to the last action.
    pub fn step(&mut self, cfg: &AppConfig, reply: SyncReply)
        requires
            old(self).phase == SyncPhase::Ticks && reply is Ticks ==> is_measurable(
                old(self).entry.prev_ticks,
                reply->ticks,
            ),
        ensures
            final(self)@ == sync_next(old(self)@, reply@, cfg),
            final(self).tid == old(self).tid,
    {
        match reply {
            SyncReply::Ticks { ticks } => {
                if self.phase == SyncPhase::Ticks {
                    self.adjust(cfg, ticks);
                }
            },
            SyncReply::Dir { name } => {
                if self.phase == SyncPhase::TargetDir {
                    self.entry.cpuset_dir = name;
                    self.phase = SyncPhase::Bind;
                } else if self.phase == SyncPhase::FinalDir {
                    self.entry.cpuset_dir = name;
                    self.phase = SyncPhase::Done;
                }
            },
            SyncReply::Outcome { result, effective } => {
                if self.phase == SyncPhase::Bind {
                    let moves = self.entry.settle(result, effective);
                    self.dead = result == AffinityResult::Dead;
                    if moves && cfg.topo.cpuset_enabled {
                        self.phase = SyncPhase::FinalDir;
                    } else {
                        if moves {
                            self.entry.cpuset_dir = String::new();
                        }
                        self.phase = SyncPhase::Done;
                    }
                }
            },
        }
    }
}

// ---------------------------------------------------------------------------
// Laws
// ---------------------------------------------------------------------------

/// A rule that names a thread is exact: neither its load nor its process being in
/// the background moves the thread.
pub proof fn law_named_threads_stay(
    t: TaskModel,
    cfg: &AppConfig,
    elapsed: u64,
    is_bg: bool,
    ticks: Option<u64>,
)
    requires
        t.is_thread_rule,
    ensures
        adjusted(t, cfg, elapsed, is_bg, ticks) == t,
{
}

/// Where the kernel is known to limit a thread that only its package's rule names,
/// the thread's target is never empty and never exceeds the limit.
pub proof fn law_targets_stay_within_the_limit(
    t: TaskModel,
    cfg: &AppConfig,
    elapsed: u64,
    is_bg: bool,
    ticks: Option<u64>,
)
    requires
        !t.is_thread_rule,
        t.cap != Set::<int>::empty(),
    ensures
        target_of(t, cfg, elapsed, is_bg, ticks).subset_of(t.cap),
        target_of(t, cfg, elapsed, is_bg, ticks) != Set::<int>::empty(),
{
}

/// A thread under high load gets the fastest CPUs in addition to its rule's: with
/// no limit in the way it loses none of those.
pub proof fn law_high_load_takes_nothing_away(
    t: TaskModel,
    cfg: &AppConfig,
    elapsed: u64,
    now: u64,
)
    requires
        wants_ticks(t, cfg, elapsed, false),
        t.cap == Set::<int>::empty(),
        t.prev_ticks > 0,
        process::level_of(now, t.prev_ticks, elapsed) >= HIGH_LOAD,
    ensures
        target_of(t, cfg, elapsed, false, Some(now)) == t.base_cpus.union(fast_present(cfg)),
        t.base_cpus.subset_of(target_of(t, cfg, elapsed, false, Some(now))),
{
    assert(t.base_cpus.union(Set::<int>::empty()) =~= t.base_cpus);
}

/// A thread whose process comes back from the background gets its rule's CPUs
/// back, as far as the kernel's limit lets it, where its load is not sampled.
pub proof fn law_threads_return_from_the_background(
    t: TaskModel,
    cfg: &AppConfig,
    elapsed: u64,
    ticks: Option<u64>,
)
    requires
        !t.is_thread_rule,
        !wants_ticks(t, cfg, elapsed, false),
    ensures
        ({
            let parked = adjusted(t, cfg, elapsed, true, ticks);
            target_of(parked, cfg, elapsed, false, ticks) == clamped(t.cap, t.base_cpus)
        }),
{
}

/// A set that the kernel cut a thread down to is asked for again, and nothing
/// else, as long as neither load nor background call for another: the next binding
/// finds the thread where it is to be. The set is part of the rule's CPUs, or has
/// none of them; a rule that names the thread needs neither.
pub proof fn law_limited_targets_are_stable(
    t: TaskModel,
    result: AffinityResult,
    eff: Set<int>,
    cfg: &AppConfig,
    elapsed: u64,
    ticks: Option<u64>,
)
    requires
        eff != Set::<int>::empty(),
        t.is_thread_rule || eff.subset_of(t.base_cpus) || eff.disjoint(t.base_cpus),
        !wants_ticks(t, cfg, elapsed, false),
    ensures
        settled(t, result, Some(eff)).cpus == eff,
        target_of(settled(t, result, Some(eff)), cfg, elapsed, false, ticks) == eff,
{
    if !t.is_thread_rule {
        if eff.subset_of(t.base_cpus) {
            assert(t.base_cpus.intersect(eff) =~= eff);
        } else {
            assert(t.base_cpus.intersect(eff) =~= Set::<int>::empty());
        }
    }
}

/// A thread after periods in which every binding succeeded and nothing new was
/// learnt of its limit. Each period has the time since the last one, whether the
/// process was in the background, and the sample.
pub open spec fn after_quiet_periods(
    t: TaskModel,
    cfg: &AppConfig,
    periods: Seq<(u64, bool, Option<u64>)>,
) -> TaskModel
    decreases periods.len(),
{
    if periods.len() == 0 {
        t
    } else {
        let p = after_quiet_periods(t, cfg, periods.drop_last());
        let (elapsed, is_bg, ticks) = periods.last();
        settled(adjusted(p, cfg, elapsed, is_bg, ticks), AffinityResult::Bound, None)
    }
}

/// A limit holds for [`CAP_TTL`] quiet periods after it was found, and no longer:
/// one period later the thread is back at its rule's CPUs and no limit is known.
pub proof fn law_limits_expire(
    t: TaskModel,
    cfg: &AppConfig,
    periods: Seq<(u64, bool, Option<u64>)>,
)
    requires
        t.cap != Set::<int>::empty(),
        t.cap_age == 0,
        periods.len() <= CAP_TTL + 1,
    ensures
        after_quiet_periods(t, cfg, periods).base_cpus == t.base_cpus,
        periods.len() <= CAP_TTL ==> {
            &&& after_quiet_periods(t, cfg, periods).cap == t.cap
            &&& after_quiet_periods(t, cfg, periods).cap_age == periods.len()
        },
        periods.len() == CAP_TTL + 1 ==> {
            &&& after_quiet_periods(t, cfg, periods).cap == Set::<int>::empty()
            &&& after_quiet_periods(t, cfg, periods).cap_age == 0
            &&& after_quiet_periods(t, cfg, periods).cpus == t.base_cpus
        },
    decreases periods.len(),
{
    if periods.len() > 0 {
        law_limits_expire(t, cfg, periods.drop_last());
    }
}

/// What the outside answers in the course of one period of one thread: its CPU
/// time, the names of the two directories, and what came of the binding.
pub ghost struct PeriodAnswers {
    pub ticks: Option<u64>,
    pub target_dir: Seq<char>,
    pub result: AffinityResult,
    pub effective: Option<Set<int>>,
    pub final_dir: Seq<char>,
}

/// The answer that a phase waits for.
pub open spec fn answer_in(k: PeriodAnswers, phase: SyncPhase) -> SyncAnswer {
    match phase {
        SyncPhase::Ticks => SyncAnswer::Ticks { ticks: k.ticks },
        SyncPhase::TargetDir => SyncAnswer::Dir { name: k.target_dir },
        SyncPhase::Bind => SyncAnswer::Outcome { result: k.result, effective: k.effective },
        SyncPhase::FinalDir => SyncAnswer::Dir { name: k.final_dir },
        SyncPhase::Done => SyncAnswer::Dir { name: k.final_dir },
    }
}

/// The period after `steps` answers.
pub open spec fn sync_run(m: SyncModel, k: PeriodAnswers, cfg: &AppConfig, steps: nat) -> SyncModel
    decreases steps,
{
    if steps == 0 {
        m
    } else {
        sync_run(sync_next(m, answer_in(k, m.phase), cfg), k, cfg, (steps - 1) as nat)
    }
}

/// The target of a thread in a period with the answers `k`.
pub open spec fn target_in(
    t: TaskModel,
    cfg: &AppConfig,
    elapsed: u64,
    is_bg: bool,
    k: PeriodAnswers,
) -> TaskModel {
    let t1 = adjusted(
        t,
        cfg,
        elapsed,
        is_bg,
        if wants_ticks(t, cfg, elapsed, is_bg) {
            k.ticks
        } else {
            None
        },
    );
    if t1.cpus == t.cpus {
        t1
    } else {
        TaskModel {
            cpuset_dir: if cfg.topo.cpuset_enabled {
                k.target_dir
            } else {
                seq![]
            },
            ..t1
        }
    }
}

/// Whatever the outside answers, a period is finished after at most four answers.
/// The thread has then been adjusted and settled, its directory goes with its
/// CPUs, and it counts as dead exactly where the binding found it so.
pub proof fn law_periods_end(
    t: TaskModel,
    cfg: &AppConfig,
    elapsed: u64,
    is_bg: bool,
    k: PeriodAnswers,
)
    ensures
        ({
            let end = sync_run(sync_start(t, cfg, elapsed, is_bg), k, cfg, 4);
            let bound = target_in(t, cfg, elapsed, is_bg, k);
            let task = settled(bound, k.result, k.effective);
            &&& end.phase == SyncPhase::Done
            &&& end.dead <==> k.result == AffinityResult::Dead
            &&& end.task == (if !moves_dir(bound, k.effective) {
                task
            } else if cfg.topo.cpuset_enabled {
                TaskModel { cpuset_dir: k.final_dir, ..task }
            } else {
                TaskModel { cpuset_dir: seq![], ..task }
            })
        }),
{
    reveal_with_fuel(sync_run, 5);
}

/// A period leaves a thread in its process, and leaves it what its rule gave it.
/// Adjusting changes its CPUs, its directory and its sample alone, and the directory
/// only along with the CPUs: the CPUs that it got have the directory that was made
/// for them, or none where cpusets are off.
pub proof fn law_periods_keep_what_the_rule_gave(
    t: TaskModel,
    cfg: &AppConfig,
    elapsed: u64,
    is_bg: bool,
    k: PeriodAnswers,
)
    ensures
        ({
            let a = target_in(t, cfg, elapsed, is_bg, k);
            &&& t.is_thread_rule ==> a == t
            &&& a == (TaskModel {
                cpus: a.cpus,
                cpuset_dir: a.cpuset_dir,
                prev_ticks: a.prev_ticks,
                ..t
            })
            &&& a.cpus == t.cpus ==> a.cpuset_dir == t.cpuset_dir
            &&& a.cpus != t.cpus ==> a.cpuset_dir == (if cfg.topo.cpuset_enabled {
                k.target_dir
            } else {
                seq![]
            })
        }),
        ({
            let end = sync_run(sync_start(t, cfg, elapsed, is_bg), k, cfg, 4).task;
            &&& end.pid == t.pid
            &&& end.base_cpus == t.base_cpus
            &&& end.is_thread_rule == t.is_thread_rule
        }),
{
    law_periods_end(t, cfg, elapsed, is_bg, k);
}

/// Whether a thread is within the life time of its limit: that is no older than
/// [`CAP_TTL`], and has no age where none is known.
pub open spec fn is_in_time(t: TaskModel) -> bool {
    t.cap_age <= CAP_TTL && (t.cap == Set::<int>::empty() ==> t.cap_age == 0)
}

/// A thread that starts a period within the life time of its limit ends it so,
/// whatever the outside answers.
pub proof fn law_periods_keep_limits_in_time(
    t: TaskModel,
    cfg: &AppConfig,
    elapsed: u64,
    is_bg: bool,
    k: PeriodAnswers,
)
    requires
        is_in_time(t),
    ensures
        is_in_time(sync_run(sync_start(t, cfg, elapsed, is_bg), k, cfg, 4).task),
{
    law_periods_end(t, cfg, elapsed, is_bg, k);
}

/// Where the configuration asks for it, a thread of a background process that only
/// its package's rule names is parked on the slowest CPUs, whatever its load, the
/// window and the sample: on all of them where no limit is known, on those within
/// the limit where there are any, else on all that the limit allows. Only a machine
/// without slow CPUs leaves it where it is. Its sample is not taken down.
pub proof fn law_background_threads_are_parked(
    t: TaskModel,
    cfg: &AppConfig,
    elapsed: u64,
    ticks: Option<u64>,
)
    requires
        !t.is_thread_rule,
        cfg.foreground_aware,
    ensures
        ({
            let slow = cfg.topo.e_core@;
            let a = adjusted(t, cfg, elapsed, true, ticks);
            &&& t.cap == Set::<int>::empty() && slow != Set::<int>::empty() ==> a.cpus == slow
            &&& t.cap == Set::<int>::empty() && slow == Set::<int>::empty() ==> a.cpus == t.cpus
            &&& t.cap != Set::<int>::empty() ==> forall|c: int|
                a.cpus.contains(c) <==> t.cap.contains(c) && (slow.contains(c) || forall|x: int|
                    !(slow.contains(x) && t.cap.contains(x)))
            &&& a.prev_ticks == t.prev_ticks
        }),
{
    lemma_clamped(t.cap, cfg.topo.e_core@);
}

/// What is wanted within a limit, one CPU at a time.
proof fn lemma_clamped(cap: Set<int>, want: Set<int>)
    ensures
        cap == Set::<int>::empty() ==> clamped(cap, want) == want,
        cap != Set::<int>::empty() ==> forall|c: int|
            clamped(cap, want).contains(c) <==> cap.contains(c) && (want.contains(c) || forall|
                x: int,
            | !(want.contains(x) && cap.contains(x))),
        cap != Set::<int>::empty() ==> clamped(cap, want) != Set::<int>::empty(),
{
    cpuset::law_narrowing_keeps_what_is_common(want, cap);
}

/// A thread that is not parked goes to the CPUs of its rule where its load does not
/// count, is not known yet or lies in between; to the slowest CPUs where it ran for
/// less than 6 percent of the window and there are such CPUs; and to its rule's and
/// the fastest CPUs together where it ran for 61 percent or more and there are such
/// CPUs. A known limit cuts that down to what it allows, or stands in for it where
/// the two have nothing in common. The sample is taken down where loads count.
pub proof fn law_loads_choose_the_cpus(
    t: TaskModel,
    cfg: &AppConfig,
    elapsed: u64,
    is_bg: bool,
    ticks: Option<u64>,
    want: Set<int>,
)
    requires
        !t.is_thread_rule,
        !cfg.foreground_aware || !is_bg,
        ({
            let fast = cfg.topo.hp_core@.intersect(cfg.topo.present_cpus@);
            let known = cfg.load_aware && elapsed > 0 && ticks is Some && t.prev_ticks > 0;
            let ran = ticks->0 - t.prev_ticks;
            let busy = known && 100 * ran >= 61 * elapsed && fast != Set::<int>::empty();
            let idle = known && 100 * ran < 6 * elapsed && cfg.topo.e_core@ != Set::<int>::empty();
            forall|c: int|
                want.contains(c) <==> if busy {
                    t.base_cpus.contains(c) || fast.contains(c)
                } else if idle {
                    cfg.topo.e_core@.contains(c)
                } else {
                    t.base_cpus.contains(c)
                }
        }),
    ensures
        ({
            let a = adjusted(t, cfg, elapsed, is_bg, ticks);
            &&& t.cap == Set::<int>::empty() ==> a.cpus == want
            &&& t.cap != Set::<int>::empty() ==> forall|c: int|
                a.cpus.contains(c) <==> t.cap.contains(c) && (want.contains(c) || forall|x: int|
                    !(want.contains(x) && t.cap.contains(x)))
            &&& a.prev_ticks == (if cfg.load_aware && elapsed > 0 && ticks is Some {
                ticks->0
            } else {
                t.prev_ticks
            })
        }),
{
    if ticks is Some && t.prev_ticks > 0 && elapsed > 0 {
        process::law_levels_are_shares_of_the_window(ticks->0, t.prev_ticks, elapsed);
        process::law_load_levels_are_bounded(ticks->0, t.prev_ticks, elapsed);
    }
    let own = if wants_ticks(t, cfg, elapsed, is_bg) {
        wanted_by_load(t, cfg, elapsed, ticks)
    } else {
        t.base_cpus
    };
    assert(own =~= want);
    lemma_clamped(t.cap, want);
}

/// A period first takes a sample, where loads count and nothing else has settled the
/// thread's CPUs. It then has a directory made for the new target, where that is new
/// and cpusets are on, and binds the thread to the target: in the directory that was
/// made for it, in the one the thread has where the target is not new, and in none
/// where it is new and cpusets are off. Any directory that is made later is for the
/// CPUs that the thread ends with.
pub proof fn law_periods_bind_to_the_target(
    t: TaskModel,
    cfg: &AppConfig,
    elapsed: u64,
    is_bg: bool,
    k: PeriodAnswers,
    n: nat,
)
    requires
        n <= 4,
    ensures
        ({
            let sampled = !t.is_thread_rule && !(cfg.foreground_aware && is_bg) && cfg.load_aware
                && elapsed > 0;
            let ticks = if sampled {
                k.ticks
            } else {
                None
            };
            let a = adjusted(t, cfg, elapsed, is_bg, ticks);
            let enabled = cfg.topo.cpuset_enabled;
            let start = sync_start(t, cfg, elapsed, is_bg);
            let m = sync_run(start, k, cfg, n);
            let binds_at: nat = if sampled && enabled && a.cpus != t.cpus {
                2
            } else if sampled || (enabled && a.cpus != t.cpus) {
                1
            } else {
                0
            };
            &&& (start.phase == SyncPhase::Ticks) == sampled
            &&& m.phase == SyncPhase::Ticks ==> n == 0 && m.task == t
            &&& m.phase == SyncPhase::TargetDir ==> enabled && a.cpus != t.cpus && m.task.cpus
                == a.cpus
            &&& (m.phase == SyncPhase::Bind) == (n == binds_at)
            &&& m.phase == SyncPhase::Bind ==> {
                &&& m.task == (TaskModel { cpuset_dir: m.task.cpuset_dir, ..a })
                &&& a.cpus == t.cpus ==> m.task.cpuset_dir == t.cpuset_dir
                &&& a.cpus != t.cpus && enabled ==> m.task.cpuset_dir == k.target_dir
                &&& a.cpus != t.cpus && !enabled ==> m.task.cpuset_dir.len() == 0
            }
            &&& m.phase == SyncPhase::FinalDir ==> enabled && n == binds_at + 1 && m.task.cpus
                == sync_run(start, k, cfg, 4).task.cpus
            &&& n > binds_at ==> m.phase == SyncPhase::FinalDir || m.phase == SyncPhase::Done
        }),
{
    reveal_with_fuel(sync_run, 5);
}

/// What a period leaves of a thread, by what came of binding it. A set in force that
/// is not the target becomes target and limit, and the limit is young again. With no
/// such set a thread without a limit is left at its target. A limit that has been
/// believed for fewer than three periods grows older by one; any other is dropped,
/// and the thread gets its rule's CPUs. CPUs that are not the ones it was bound to
/// have the directory that was made for them, or none where cpusets are off. A
/// refusal is remembered, death is reported, and nothing else changes.
pub proof fn law_periods_settle_by_the_outcome(
    t: TaskModel,
    cfg: &AppConfig,
    elapsed: u64,
    is_bg: bool,
    k: PeriodAnswers,
    n: nat,
)
    requires
        n <= 4,
        sync_run(sync_start(t, cfg, elapsed, is_bg), k, cfg, n).phase == SyncPhase::Bind,
    ensures
        ({
            let enabled = cfg.topo.cpuset_enabled;
            let bound = sync_run(sync_start(t, cfg, elapsed, is_bg), k, cfg, n).task;
            let last = sync_run(sync_start(t, cfg, elapsed, is_bg), k, cfg, 4);
            let end = last.task;
            let expires = k.effective is None && t.cap != Set::<int>::empty() && t.cap_age >= 3;
            &&& last.phase == SyncPhase::Done
            &&& last.dead == (k.result == AffinityResult::Dead)
            &&& end.failed == (t.failed || k.result == AffinityResult::Failed)
            &&& end.pid == t.pid && end.base_cpus == t.base_cpus && end.is_thread_rule
                == t.is_thread_rule && end.prev_ticks == bound.prev_ticks
            &&& k.effective is Some ==> {
                &&& end.cpus == k.effective->0
                &&& end.cap == k.effective->0
                &&& end.cap_age == 0
            }
            &&& k.effective is None && t.cap == Set::<int>::empty() ==> {
                &&& end.cpus == bound.cpus
                &&& end.cap == t.cap
                &&& end.cap_age == t.cap_age
            }
            &&& k.effective is None && t.cap != Set::<int>::empty() && t.cap_age < 3 ==> {
                &&& end.cpus == bound.cpus
                &&& end.cap == t.cap
                &&& end.cap_age == t.cap_age + 1
            }
            &&& expires ==> {
                &&& end.cpus == t.base_cpus
                &&& end.cap == Set::<int>::empty()
                &&& end.cap_age == 0
            }
            &&& k.effective is Some || expires ==> if enabled {
                end.cpuset_dir == k.final_dir
            } else {
                end.cpuset_dir.len() == 0
            }
            &&& k.effective is None && !expires ==> end.cpuset_dir == bound.cpuset_dir
        }),
{
    reveal_with_fuel(sync_run, 5);
}

/// An answer that a period does not wait for changes nothing, and a finished period
/// stays as it is.
pub proof fn law_answers_out_of_turn_change_nothing(
    m: SyncModel,
    answer: SyncAnswer,
    cfg: &AppConfig,
)
    requires
        answer is Ticks ==> m.phase != SyncPhase::Ticks,
        answer is Dir ==> m.phase != SyncPhase::TargetDir && m.phase != SyncPhase::FinalDir,
        answer is Outcome ==> m.phase != SyncPhase::Bind,
    ensures
        sync_next(m, answer, cfg) == m,
{
}

/// What a period asks for, phase by phase: directories for the thread's very CPUs, and a
/// binding to them in the directory that the thread has.
pub proof fn law_periods_ask_for_the_thread_s_cpus(run: &ThreadSync, a: SyncAction)
    requires
        call_ensures(ThreadSync::action, (run,), a),
    ensures
        run.phase == SyncPhase::Ticks <==> a is ReadTicks,
        run.phase == SyncPhase::TargetDir || run.phase == SyncPhase::FinalDir <==> a is EnsureDir,
        run.phase == SyncPhase::Bind <==> a is Bind,
        run.phase == SyncPhase::Done <==> a is Finish,
        a matches SyncAction::EnsureDir { cpus } ==> cpus == run.entry.cpus,
        a matches SyncAction::Bind { cpus, dir } ==> cpus == run.entry.cpus && dir@
            == run.entry.cpuset_dir@,
{
}

/// A period's adjustment of one thread, as it is carried out. A thread that a rule names
/// is left as it is. One whose process is in the background, where that counts, is parked
/// on the slowest CPUs, cut to a known limit or replaced by it where they have nothing in
/// common, whatever its load. A target is reported as new exactly where it is another one.
pub proof fn law_adjusting_parks_background_threads(
    e: &mut TaskEntry,
    cfg: &AppConfig,
    elapsed_ticks: u64,
    is_bg: bool,
    ticks: Option<u64>,
    changed: bool,
)
    requires
        call_ensures(TaskEntry::adjust_target, (e, cfg, elapsed_ticks, is_bg, ticks), changed),
    ensures
        changed <==> final(e).cpus != old(e).cpus,
        old(e).is_thread_rule ==> {
            &&& final(e).cpus == old(e).cpus
            &&& final(e).prev_ticks == old(e).prev_ticks
        },
        !old(e).is_thread_rule && cfg.foreground_aware && is_bg ==> {
            let slow = cfg.topo.e_core@;
            let cap = old(e).cap@;
            &&& cap == Set::<int>::empty() && slow != Set::<int>::empty() ==> final(e).cpus@
                == slow
            &&& cap == Set::<int>::empty() && slow == Set::<int>::empty() ==> final(e).cpus@
                == old(e).cpus@
            &&& cap != Set::<int>::empty() ==> forall|c: int|
                final(e).cpus@.contains(c) <==> cap.contains(c) && (slow.contains(c) || forall|
                    x: int,
                | !(slow.contains(x) && cap.contains(x)))
            &&& final(e).prev_ticks == old(e).prev_ticks
        },
        final(e).cap == old(e).cap || final(e).cap@ == old(e).cap@,
        final(e).pid == old(e).pid,
        final(e).failed == old(e).failed,
        final(e).cap_age == old(e).cap_age,
        final(e).base_cpus@ == old(e).base_cpus@,
        final(e).cpuset_dir@ == old(e).cpuset_dir@,
        final(e).is_thread_rule == old(e).is_thread_rule,
{
    assert(final(e)@ == adjusted(old(e)@, cfg, elapsed_ticks, is_bg, ticks));
    cpuset::law_equal_masks_are_equal_sets(final(e).cpus, old(e).cpus);
    if !old(e).is_thread_rule && cfg.foreground_aware && is_bg {
        law_background_threads_are_parked(old(e)@, cfg, elapsed_ticks, ticks);
    }
}

/// A period's adjustment of a thread that is not parked, as it is carried out: its rule's
/// CPUs where its load does not count, is not known yet or lies in between; the slowest
/// where it ran for less than 6 percent of the window; its rule's and the fastest where it
/// ran for 61 percent or more; all of it within a known limit. The sample is taken down.
pub proof fn law_adjusting_follows_the_load(
    e: &mut TaskEntry,
    cfg: &AppConfig,
    elapsed_ticks: u64,
    is_bg: bool,
    ticks: Option<u64>,
    changed: bool,
    want: Set<int>,
)
    requires
        call_ensures(TaskEntry::adjust_target, (e, cfg, elapsed_ticks, is_bg, ticks), changed),
        !old(e).is_thread_rule,
        !cfg.foreground_aware || !is_bg,
        ({
            let prev = old(e).prev_ticks;
            let fast = cfg.topo.hp_core@.intersect(cfg.topo.present_cpus@);
            let known = cfg.load_aware && elapsed_ticks > 0 && ticks is Some && prev > 0;
            let ran = ticks->0 - prev;
            let busy = known && 100 * ran >= 61 * elapsed_ticks && fast != Set::<int>::empty();
            let idle = known && 100 * ran < 6 * elapsed_ticks && cfg.topo.e_core@ != Set::<
                int,
            >::empty();
            forall|c: int|
                want.contains(c) <==> if busy {
                    old(e).base_cpus@.contains(c) || fast.contains(c)
                } else if idle {
                    cfg.topo.e_core@.contains(c)
                } else {
                    old(e).base_cpus@.contains(c)
                }
        }),
    ensures
        old(e).cap@ == Set::<int>::empty() ==> final(e).cpus@ == want,
        old(e).cap@ != Set::<int>::empty() ==> forall|c: int|
            final(e).cpus@.contains(c) <==> old(e).cap@.contains(c) && (want.contains(c) || forall|
                x: int,
            | !(want.contains(x) && old(e).cap@.contains(x))),
        final(e).prev_ticks == (if cfg.load_aware && elapsed_ticks > 0 && ticks is Some {
            ticks->0
        } else {
            old(e).prev_ticks
        }),
{
    let t = old(e)@;
    let a = adjusted(t, cfg, elapsed_ticks, is_bg, ticks);
    assert(final(e)@ == a);
    assert(final(e).cpus@ == a.cpus && final(e).prev_ticks == a.prev_ticks);
    law_loads_choose_the_cpus(t, cfg, elapsed_ticks, is_bg, ticks, want);
    if t.cap != Set::<int>::empty() {
        assert forall|c: int|
            final(e).cpus@.contains(c) <==> old(e).cap@.contains(c) && (want.contains(c) || forall|
                x: int,
            | !(want.contains(x) && old(e).cap@.contains(x))) by {
            assert(a.cpus.contains(c) == final(e).cpus@.contains(c));
        }
    }
}

/// One answer, one step, on the fields of the run. The name of a directory becomes the
/// thread's directory. What came of the binding is taken down: a set in force as target
/// and limit; without one the limit grows older, and is dropped after three periods in
/// favour of the rule's CPUs; a refusal and a death are remembered.
pub proof fn law_each_answer_takes_one_step(run: &mut ThreadSync, cfg: &AppConfig, reply: SyncReply)
    requires
        call_ensures(ThreadSync::step, (run, cfg, reply), ()),
    ensures
        final(run).tid == old(run).tid,
        final(run).is_bg == old(run).is_bg,
        final(run).elapsed_ticks == old(run).elapsed_ticks,
        reply is Dir && (old(run).phase == SyncPhase::TargetDir || old(run).phase
            == SyncPhase::FinalDir) ==> {
            &&& final(run).entry.cpuset_dir@ == reply->name@
            &&& final(run).entry.cpus@ == old(run).entry.cpus@
            &&& final(run).phase == (if old(run).phase == SyncPhase::TargetDir {
                SyncPhase::Bind
            } else {
                SyncPhase::Done
            })
        },
        reply is Outcome && old(run).phase == SyncPhase::Bind ==> {
            let t = old(run).entry;
            let e = final(run).entry;
            let eff = reply->effective;
            let limited = t.cap@ != Set::<int>::empty();
            let moves = eff is Some || (limited && t.cap_age >= 3);
            &&& final(run).dead == (reply->result == AffinityResult::Dead)
            &&& e.failed == (t.failed || reply->result == AffinityResult::Failed)
            &&& e.pid == t.pid && e.base_cpus@ == t.base_cpus@ && e.prev_ticks == t.prev_ticks
                && e.is_thread_rule == t.is_thread_rule
            &&& eff is Some ==> e.cpus@ == eff->0@ && e.cap@ == eff->0@ && e.cap_age == 0
            &&& eff is None && !limited ==> e.cpus@ == t.cpus@ && e.cap@ == t.cap@ && e.cap_age
                == t.cap_age
            &&& eff is None && limited && t.cap_age < 3 ==> e.cpus@ == t.cpus@ && e.cap@ == t.cap@
                && e.cap_age == t.cap_age + 1
            &&& eff is None && limited && t.cap_age >= 3 ==> e.cpus@ == t.base_cpus@ && e.cap@
                == Set::<int>::empty() && e.cap_age == 0
            &&& final(run).phase == (if moves && cfg.topo.cpuset_enabled {
                SyncPhase::FinalDir
            } else {
                SyncPhase::Done
            })
            &&& moves && !cfg.topo.cpuset_enabled ==> e.cpuset_dir@.len() == 0
            &&& !moves ==> e.cpuset_dir@ == t.cpuset_dir@
        },
{
    assert(final(run)@ == sync_next(old(run)@, reply@, cfg));
    if reply is Outcome && reply->effective is Some {
        assert(reply->effective.deep_view() == Some(reply->effective->0@));
    }
}

} // verus!
