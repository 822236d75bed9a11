//! Binding one thread to its CPUs.
//!
//! A binding is a conversation with the kernel. [`BindRun`] holds the decisions:
//! [`BindRun::action`] says what to do next, and [`BindRun::step`] takes the
//! answer. The caller performs the actions until the run is finished.

use vstd::prelude::*;

use crate::common::{EINVAL, ESRCH};
use crate::cpuset;
use crate::cpuset::CpuSet;
use crate::text;
use crate::text::{push_signed, same_text};
use crate::topology::{CpuTopology, ONLINE_REFRESH_MS};

verus! {

/// How a binding ended.
#[derive(Clone, Copy, PartialEq, Eq, Structural)]
pub enum AffinityResult {
    /// The thread is bound, now or already before.
    Bound,
    /// The thread is gone.
    Dead,
    /// The kernel refused; trying the same again is of no use.
    Failed,
}

/// What a binding has come to.
#[derive(Clone, Copy)]
pub enum BindPhase {
    /// Waits for the cpuset directory of a target that differs from the request.
    TargetDir,
    /// Waits for the thread's current CPUs.
    Query,
    /// Waits for the answer to the target.
    First,
    /// Waits for the CPUs that the kernel allows, after it refused the target.
    Allowed,
    /// Waits for the cpuset directory of the reduced target.
    RetryDir,
    /// Waits for the answer to the reduced target.
    Retry,
    /// Finished. `effective` is the set in force where it differs from the
    /// request, `refused` the set that the kernel did not take.
    Done { result: AffinityResult, effective: Option<CpuSet>, refused: Option<CpuSet> },
}

/// What to do next for a binding.
pub enum BindAction {
    /// See to it that there is a cpuset directory for `cpus`.
    EnsureDir { cpus: CpuSet },
    /// Read the thread's CPUs.
    GetAffinity,
    /// Append a line to a file, where `tasks` gives the path of one and the line,
    /// whatever comes of that; then set the thread's CPUs.
    SetAffinity { tasks: Option<(String, String)>, cpus: CpuSet },
    /// Read from the thread's status which CPUs the kernel allows it.
    ReadAllowed,
    /// Nothing is left to do.
    Finish { result: AffinityResult, effective: Option<CpuSet>, refused: Option<CpuSet> },
}

/// The answer to an action.
pub enum BindReply {
    /// Name of the directory, empty where it could not be made.
    Dir { name: String },
    /// The thread's CPUs, where they could be read.
    Current { cpus: Option<CpuSet> },
    /// Whether the kernel took the set, and its error number where it did not.
    Outcome { ok: bool, errno: Option<i32> },
    /// The CPUs that the kernel allows, where they could be read.
    Allowed { cpus: Option<CpuSet> },
}

/// A binding under way.
pub struct BindRun {
    /// The thread.
    pub tid: i32,
    /// The CPUs that were asked for.
    pub cpus: CpuSet,
    /// The CPUs that are being set.
    pub target: CpuSet,
    /// Name of the cpuset directory that goes with them; empty for the base.
    pub dir: String,
    /// Path of the base cpuset directory.
    pub base: String,
    /// Whether threads can be put into cpuset directories.
    pub cpuset_enabled: bool,
    /// What the binding has come to.
    pub phase: BindPhase,
}

// ---------------------------------------------------------------------------
// Model
// ---------------------------------------------------------------------------

/// A binding under way, with texts as sequences of characters.
pub ghost struct BindModel {
    pub cpus: CpuSet,
    pub target: CpuSet,
    pub dir: Seq<char>,
    pub cpuset_enabled: bool,
    pub phase: BindPhase,
}

/// The answer to an action, with texts as sequences of characters.
pub ghost enum BindAnswer {
    Dir { name: Seq<char> },
    Current { cpus: Option<CpuSet> },
    Outcome { ok: bool, errno: Option<i32> },
    Allowed { cpus: Option<CpuSet> },
}

impl View for BindRun {
    type V = BindModel;

    open spec fn view(&self) -> BindModel {
        BindModel {
            cpus: self.cpus,
            target: self.target,
            dir: self.dir@,
            cpuset_enabled: self.cpuset_enabled,
            phase: self.phase,
        }
    }
}

impl View for BindReply {
    type V = BindAnswer;

    open spec fn view(&self) -> BindAnswer {
        match *self {
            BindReply::Dir { name } => BindAnswer::Dir { name: name@ },
            BindReply::Current { cpus } => BindAnswer::Current { cpus },
            BindReply::Outcome { ok, errno } => BindAnswer::Outcome { ok, errno },
            BindReply::Allowed { cpus } => BindAnswer::Allowed { cpus },
        }
    }
}

/// What is reported of a set in force: the set, where it is not the one that was
/// asked for.
pub open spec fn reported(asked: CpuSet, in_force: CpuSet) -> Option<CpuSet> {
    if in_force != asked {
        Some(in_force)
    } else {
        None
    }
}

/// The start of a binding to `cpus`, of which `clipped` is what is online.
pub open spec fn bind_start(
    cpus: CpuSet,
    clipped: CpuSet,
    dir: Seq<char>,
    cpuset_enabled: bool,
) -> BindModel {
    BindModel {
        cpus,
        target: clipped,
        dir: if clipped != cpus {
            seq![]
        } else {
            dir
        },
        cpuset_enabled,
        phase: if clipped != cpus && cpuset_enabled {
            BindPhase::TargetDir
        } else {
            BindPhase::Query
        },
    }
}

/// The set that is tried after the kernel refused `target` and allows `allowed`.
pub open spec fn reduced(target: CpuSet, allowed: CpuSet) -> CpuSet {
    cpuset::mask_of(cpuset::narrowed(target@, allowed@))
}

/// The binding after an answer. One that the phase does not wait for changes
/// nothing.
pub open spec fn bind_next(m: BindModel, answer: BindAnswer) -> BindModel {
    let done = |result: AffinityResult, effective: Option<CpuSet>, refused: Option<CpuSet>|
        BindModel { phase: BindPhase::Done { result, effective, refused }, ..m };
    match (m.phase, answer) {
        (BindPhase::TargetDir, BindAnswer::Dir { name }) => BindModel {
            dir: name,
            phase: BindPhase::Query,
            ..m
        },
        (BindPhase::Query, BindAnswer::Current { cpus }) => if cpus == Some(m.target) {
            done(AffinityResult::Bound, reported(m.cpus, m.target), None)
        } else {
            BindModel { phase: BindPhase::First, ..m }
        },
        (BindPhase::First, BindAnswer::Outcome { ok, errno }) => if ok {
            done(AffinityResult::Bound, reported(m.cpus, m.target), None)
        } else if errno == Some(ESRCH) {
            done(AffinityResult::Dead, None, None)
        } else if errno == Some(EINVAL) {
            BindModel { phase: BindPhase::Allowed, ..m }
        } else {
            done(AffinityResult::Failed, reported(m.cpus, m.target), Some(m.target))
        },
        (BindPhase::Allowed, BindAnswer::Allowed { cpus }) => match cpus {
            Some(allowed) => BindModel {
                target: reduced(m.target, allowed),
                dir: seq![],
                phase: if m.cpuset_enabled {
                    BindPhase::RetryDir
                } else {
                    BindPhase::Retry
                },
                ..m
            },
            None => done(AffinityResult::Failed, reported(m.cpus, m.target), Some(m.target)),
        },
        (BindPhase::RetryDir, BindAnswer::Dir { name }) => BindModel {
            dir: name,
            phase: BindPhase::Retry,
            ..m
        },
        (BindPhase::Retry, BindAnswer::Outcome { ok, errno }) => if ok {
            done(AffinityResult::Bound, reported(m.cpus, m.target), None)
        } else if errno == Some(ESRCH) {
            done(AffinityResult::Dead, None, None)
        } else {
            done(AffinityResult::Failed, reported(m.cpus, m.target), Some(m.target))
        },
        _ => m,
    }
}

/// Path of the file that takes the threads of the cpuset directory `dir`; the
/// base directory's where that is empty.
pub open spec fn tasks_path(base: Seq<char>, dir: Seq<char>) -> Seq<char> {
    if dir.len() == 0 {
        base + "/tasks"@
    } else {
        base + "/"@ + dir + "/tasks"@
    }
}

/// The file to append to, and the line, so that thread `tid` joins the cpuset
/// directory `dir`: the thread's id and a line feed.
pub open spec fn tasks_entry(
    tid: i32,
    base: Seq<char>,
    dir: Seq<char>,
    cpuset_enabled: bool,
) -> Option<(Seq<char>, Seq<char>)> {
    if cpuset_enabled {
        Some((tasks_path(base, dir), text::signed_text(tid as int) + "\n"@))
    } else {
        None
    }
}

// ---------------------------------------------------------------------------
// The run
// ---------------------------------------------------------------------------

/// What puts thread `tid` into the cpuset directory `dir`: the file to append to,
/// and the line to append. `None` where cpusets are off.
pub fn write_cpuset_tasks(tid: i32, dir: &str, base: &str, cpuset_enabled: bool) -> (out: Option<
    (String, String),
>)
    ensures
        out.deep_view() == tasks_entry(tid, base@, dir@, cpuset_enabled),
{
    if !cpuset_enabled {
        return None;
    }
    let path = if dir.is_empty() {
        base.to_owned().concat("/tasks")
    } else {
        base.to_owned().concat("/").concat(dir).concat("/tasks")
    };
    let mut line = String::new();
    push_signed(&mut line, tid);
    line.append("\n");
    assert(line@ =~= text::signed_text(tid as int) + "\n"@);
    Some((path, line))
}

/// Starts binding thread `tid` to `cpus`, whose cpuset directory is `cpuset_dir`.
/// A request with CPUs that are offline is cut down first; `now` and `online` are
/// the time and what the kernel lists as online, as for
/// [`CpuTopology::clip_online`]. `base` is the path of the base cpuset directory.
pub fn affinity_set_ex(
    tid: i32,
    cpus: &CpuSet,
    cpuset_dir: &str,
    topo: &mut CpuTopology,
    base: &str,
    now: u64,
    online: Option<&str>,
) -> (run: BindRun)
    requires
        old(topo).online_at + ONLINE_REFRESH_MS <= u64::MAX,
    ensures
        final(topo).online_now@ == old(topo).online_after(now, online.deep_view()),
        final(topo).online_at == (if old(topo).is_stale(now) {
            now
        } else {
            old(topo).online_at
        }),
        *final(topo) == (CpuTopology {
            online_now: final(topo).online_now,
            online_at: final(topo).online_at,
            ..*old(topo)
        }),
        run.tid == tid,
        run.base@ == base@,
        run@ == bind_start(
            *cpus,
            cpuset::mask_of(cpuset::narrowed(cpus@, final(topo).online_now@)),
            cpuset_dir@,
            old(topo).cpuset_enabled,
        ),
{
    let clipped = topo.clip_online(now, online, cpus);
    proof {
        cpuset::lemma_mask_of(clipped);
    }
    let cut = clipped != *cpus;
    BindRun {
        tid,
        cpus: *cpus,
        target: clipped,
        dir: if cut {
            String::new()
        } else {
            cpuset_dir.to_owned()
        },
        base: base.to_owned(),
        cpuset_enabled: topo.cpuset_enabled,
        phase: if cut && topo.cpuset_enabled {
            BindPhase::TargetDir
        } else {
            BindPhase::Query
        },
    }
}

impl BindRun {
    /// The set in force, where it is not the one that was asked for.
    fn report(&self, eff: &CpuSet) -> (out: Option<CpuSet>)
        ensures
            out == reported(self.cpus, *eff),
    {
        if *eff != self.cpus {
            Some(*eff)
        } else {
            None
        }
    }

    /// What is to be done in the current phase.
    pub fn action(&self) -> (a: BindAction)
        ensures
            match self.phase {
                BindPhase::TargetDir | BindPhase::RetryDir => a == (BindAction::EnsureDir {
                    cpus: self.target,
                }),
                BindPhase::Query => a is GetAffinity,
                BindPhase::First | BindPhase::Retry => {
                    &&& a matches BindAction::SetAffinity { tasks, cpus }
                    &&& cpus == self.target
                    &&& tasks.deep_view() == tasks_entry(
                        self.tid,
                        self.base@,
                        self.dir@,
                        self.cpuset_enabled,
                    )
                },
                BindPhase::Allowed => a is ReadAllowed,
                BindPhase::Done { result, effective, refused } => a == (BindAction::Finish {
                    result,
                    effective,
                    refused,
                }),
            },
    {
        match self.phase {
            BindPhase::TargetDir => BindAction::EnsureDir { cpus: self.target },
            BindPhase::RetryDir => BindAction::EnsureDir { cpus: self.target },
            BindPhase::Query => BindAction::GetAffinity,
            BindPhase::First => BindAction::SetAffinity {
                tasks: write_cpuset_tasks(
                    self.tid,
                    self.dir.as_str(),
                    self.base.as_str(),
                    self.cpuset_enabled,
                ),
                cpus: self.target,
            },
            BindPhase::Retry => BindAction::SetAffinity {
                tasks: write_cpuset_tasks(
                    self.tid,
                    self.dir.as_str(),
                    self.base.as_str(),
                    self.cpuset_enabled,
                ),
                cpus: self.target,
            },
            BindPhase::Allowed => BindAction::ReadAllowed,
            BindPhase::Done { result, effective, refused } => BindAction::Finish {
                result,
                effective,
                refused,
            },
        }
    }

    /// Ends the run.
    fn finish(
        &mut self,
        result: AffinityResult,
        effective: Option<CpuSet>,
        refused: Option<CpuSet>,
    )
        ensures
            *final(self) == (BindRun {
                phase: BindPhase::Done { result, effective, refused },
                ..*old(self)
            }),
    {
        self.phase = BindPhase::Done { result, effective, refused };
    }

    /// Takes the answer to the last action.
    pub fn step(&mut self, reply: BindReply)
        ensures
            final(self)@ == bind_next(old(self)@, reply@),
            final(self).tid == old(self).tid,
            final(self).base == old(self).base,
    {
        let target = self.target;
        let report = self.report(&target);
        match reply {
            BindReply::Dir { name } => match self.phase {
                BindPhase::TargetDir => {
                    self.dir = name;
                    self.phase = BindPhase::Query;
                },
                BindPhase::RetryDir => {
                    self.dir = name;
                    self.phase = BindPhase::Retry;
                },
                _ => {},
            },
            BindReply::Current { cpus } => match self.phase {
                BindPhase::Query => {
                    let same = match cpus {
                        Some(c) => c == target,
                        None => false,
                    };
                    if same {
                        self.finish(AffinityResult::Bound, report, None);
                    } else {
                        self.phase = BindPhase::First;
                    }
                },
                _ => {},
            },
            BindReply::Outcome { ok, errno } => {
                let gone = match errno {
                    Some(e) => e == ESRCH,
                    None => false,
                };
                let invalid = match errno {
                    Some(e) => e == EINVAL,
                    None => false,
                };
                match self.phase {
                    BindPhase::First => {
                        if ok {
                            self.finish(AffinityResult::Bound, report, None);
                        } else if gone {
                            self.finish(AffinityResult::Dead, None, None);
                        } else if invalid {
                            self.phase = BindPhase::Allowed;
                        } else {
                            self.finish(AffinityResult::Failed, report, Some(target));
                        }
                    },
                    BindPhase::Retry => {
                        if ok {
                            self.finish(AffinityResult::Bound, report, None);
                        } else if gone {
                            self.finish(AffinityResult::Dead, None, None);
                        } else {
                            self.finish(AffinityResult::Failed, report, Some(target));
                        }
                    },
                    _ => {},
                }
            },
            BindReply::Allowed { cpus } => match self.phase {
                BindPhase::Allowed => match cpus {
                    Some(allowed) => {
                        let eff = target.narrow(&allowed);
                        proof {
                            cpuset::lemma_mask_of(eff);
                        }
                        self.target = eff;
                        self.dir = String::new();
                        self.phase = if self.cpuset_enabled {
                            BindPhase::RetryDir
                        } else {
                            BindPhase::Retry
                        };
                    },
                    None => {
                        self.finish(AffinityResult::Failed, report, Some(target));
                    },
                },
                _ => {},
            },
        }
    }
}

/// How a finished run ended, without the set in force; `None` while it goes on.
pub fn affinity_set(run: &BindRun) -> (out: Option<AffinityResult>)
    ensures
        out == (match run.phase {
            BindPhase::Done { result, .. } => Some(result),
            _ => None,
        }),
{
    match run.phase {
        BindPhase::Done { result, .. } => Some(result),
        _ => None,
    }
}

// ---------------------------------------------------------------------------
// Laws
// ---------------------------------------------------------------------------

/// What a kernel answers in the course of one binding: the thread's CPUs, the
/// answer to the target, the CPUs it allows, and the answer to the reduced target;
/// and the names of the two directories.
pub ghost struct KernelAnswers {
    pub current: Option<CpuSet>,
    pub first: (bool, Option<i32>),
    pub allowed: Option<CpuSet>,
    pub second: (bool, Option<i32>),
    pub target_dir: Seq<char>,
    pub retry_dir: Seq<char>,
}

/// The answer that a phase waits for.
pub open spec fn answer_in(k: KernelAnswers, phase: BindPhase) -> BindAnswer {
    match phase {
        BindPhase::TargetDir => BindAnswer::Dir { name: k.target_dir },
        BindPhase::Query => BindAnswer::Current { cpus: k.current },
        BindPhase::First => BindAnswer::Outcome { ok: k.first.0, errno: k.first.1 },
        BindPhase::Allowed => BindAnswer::Allowed { cpus: k.allowed },
        BindPhase::RetryDir => BindAnswer::Dir { name: k.retry_dir },
        BindPhase::Retry => BindAnswer::Outcome { ok: k.second.0, errno: k.second.1 },
        BindPhase::Done { .. } => BindAnswer::Current { cpus: None },
    }
}

/// The binding after `steps` answers.
pub open spec fn bind_run(m: BindModel, k: KernelAnswers, steps: nat) -> BindModel
    decreases steps,
{
    if steps == 0 {
        m
    } else {
        bind_run(bind_next(m, answer_in(k, m.phase)), k, (steps - 1) as nat)
    }
}

/// How a binding to `cpus`, of which `target` is online, ends.
pub open spec fn bind_end(cpus: CpuSet, target: CpuSet, k: KernelAnswers) -> BindPhase {
    if k.current == Some(target) || k.first.0 {
        BindPhase::Done {
            result: AffinityResult::Bound,
            effective: reported(cpus, target),
            refused: None,
        }
    } else if k.first.1 == Some(ESRCH) {
        BindPhase::Done { result: AffinityResult::Dead, effective: None, refused: None }
    } else if k.first.1 == Some(EINVAL) && k.allowed is Some {
        let eff = reduced(target, k.allowed->0);
        if k.second.0 {
            BindPhase::Done {
                result: AffinityResult::Bound,
                effective: reported(cpus, eff),
                refused: None,
            }
        } else if k.second.1 == Some(ESRCH) {
            BindPhase::Done { result: AffinityResult::Dead, effective: None, refused: None }
        } else {
            BindPhase::Done {
                result: AffinityResult::Failed,
                effective: reported(cpus, eff),
                refused: Some(eff),
            }
        }
    } else {
        BindPhase::Done {
            result: AffinityResult::Failed,
            effective: reported(cpus, target),
            refused: Some(target),
        }
    }
}

/// Whatever the kernel answers, a binding is finished after at most six answers,
/// and ends as [`bind_end`] says.
pub proof fn law_bindings_end(
    cpus: CpuSet,
    clipped: CpuSet,
    dir: Seq<char>,
    cpuset_enabled: bool,
    k: KernelAnswers,
)
    ensures
        bind_run(bind_start(cpus, clipped, dir, cpuset_enabled), k, 6).phase == bind_end(
            cpus,
            clipped,
            k,
        ),
{
    reveal_with_fuel(bind_run, 7);
}

/// The set that the kernel holds for the thread once a binding has succeeded.
pub open spec fn in_force(target: CpuSet, k: KernelAnswers) -> CpuSet {
    if k.current == Some(target) || k.first.0 {
        target
    } else {
        reduced(target, k.allowed->0)
    }
}

/// A binding that succeeds reports what is in force: the set that it names, or the
/// request where it names none. What it names is never the request itself, so a
/// caller that takes it over does not repeat the same refused request.
pub proof fn law_bindings_report_what_is_in_force(cpus: CpuSet, target: CpuSet, k: KernelAnswers)
    ensures
        bind_end(cpus, target, k) matches BindPhase::Done { result, effective, .. } && {
            &&& effective != Some(cpus)
            &&& result == AffinityResult::Bound ==> in_force(target, k) == (match effective {
                Some(e) => e,
                None => cpus,
            })
            &&& result == AffinityResult::Dead ==> effective is None
        },
{
}

/// After the kernel refused a set as invalid, only CPUs that it allows are tried.
pub proof fn law_retries_stay_within_what_is_allowed(target: CpuSet, allowed: CpuSet)
    ensures
        reduced(target, allowed)@ == cpuset::narrowed(target@, allowed@),
        reduced(target, allowed)@.subset_of(allowed@),
{
    cpuset::lemma_narrowed_has_mask(target, allowed);
}

/// In every run, whatever the kernel answers, the set that is asked for and the
/// directory that goes with it belong together. The first set is what is online of
/// the request. It goes with the request's directory where it is the request, else
/// with the directory that was made for just that set, or the base where cpusets are
/// off. It is asked for exactly where the thread does not have it already. The second
/// set follows a refusal as invalid, where the kernel says what it allows: the allowed
/// CPUs of the first set, or all allowed ones where there are none. It goes with the
/// directory that was made for just that set, or the base where cpusets are off.
pub proof fn law_sets_go_with_their_directories(
    cpus: CpuSet,
    clipped: CpuSet,
    dir: Seq<char>,
    cpuset_enabled: bool,
    k: KernelAnswers,
    n: nat,
)
    requires
        n <= 6,
    ensures
        ({
            let m = bind_run(bind_start(cpus, clipped, dir, cpuset_enabled), k, n);
            let q: nat = if clipped != cpus && cpuset_enabled {
                1
            } else {
                0
            };
            let r: nat = if cpuset_enabled {
                4
            } else {
                3
            };
            let asks = k.current != Some(clipped);
            let invalid = asks && !k.first.0 && k.first.1 == Some(22i32);
            let retries = invalid && k.allowed is Some;
            &&& m.cpus == cpus && m.cpuset_enabled == cpuset_enabled
            &&& (m.phase is TargetDir) == (n < q)
            &&& (m.phase is Query) == (n == q)
            &&& (m.phase is First) == (n == q + 1 && asks)
            &&& (m.phase is Allowed) == (n == q + 2 && invalid)
            &&& (m.phase is RetryDir) == (n == q + 3 && retries && cpuset_enabled)
            &&& (m.phase is Retry) == (n == q + r && retries)
            &&& m.phase is TargetDir || m.phase is Query || m.phase is First || m.phase is Allowed
                ==> m.target == clipped
            &&& m.phase is Query || m.phase is First ==> if clipped == cpus {
                m.dir == dir
            } else if cpuset_enabled {
                m.dir == k.target_dir
            } else {
                m.dir.len() == 0
            }
            &&& m.phase is RetryDir || m.phase is Retry ==> forall|c: int|
                m.target@.contains(c) <==> k.allowed->0@.contains(c) && (clipped@.contains(c)
                    || forall|x: int| !(clipped@.contains(x) && k.allowed->0@.contains(x)))
            &&& m.phase is Retry ==> if cpuset_enabled {
                m.dir == k.retry_dir
            } else {
                m.dir.len() == 0
            }
        }),
{
    reveal_with_fuel(bind_run, 7);
    if k.allowed is Some {
        law_retries_stay_within_what_is_allowed(clipped, k.allowed->0);
        cpuset::law_narrowing_keeps_what_is_common(clipped@, k.allowed->0@);
    }
}

/// How a run ends, by what the kernel answered. The thread is bound where it had the
/// first set already, or the kernel took the first set or the second. It is dead where
/// the kernel said so of a set that it was asked for. Anything else is a failure, and
/// names the last set as refused. What is reported is the last set, where it is not
/// the request and the thread is not dead.
pub proof fn law_bindings_end_by_the_answers(
    cpus: CpuSet,
    clipped: CpuSet,
    dir: Seq<char>,
    cpuset_enabled: bool,
    k: KernelAnswers,
)
    ensures
        ({
            let m = bind_run(bind_start(cpus, clipped, dir, cpuset_enabled), k, 6);
            let asks = k.current != Some(clipped);
            let retries = asks && !k.first.0 && k.first.1 == Some(22i32) && k.allowed is Some;
            let took = if retries {
                k.second.0
            } else {
                !asks || k.first.0
            };
            let gone = if retries {
                !k.second.0 && k.second.1 == Some(3i32)
            } else {
                asks && !k.first.0 && k.first.1 == Some(3i32)
            };
            &&& !retries ==> m.target == clipped
            &&& retries ==> forall|c: int|
                m.target@.contains(c) <==> k.allowed->0@.contains(c) && (clipped@.contains(c)
                    || forall|x: int| !(clipped@.contains(x) && k.allowed->0@.contains(x)))
            &&& m.phase matches BindPhase::Done { result, effective, refused } && {
                &&& (result == AffinityResult::Bound) == took
                &&& (result == AffinityResult::Dead) == gone
                &&& effective == (if gone || m.target == cpus {
                    None
                } else {
                    Some(m.target)
                })
                &&& refused == (if took || gone {
                    None
                } else {
                    Some(m.target)
                })
            }
        }),
{
    reveal_with_fuel(bind_run, 7);
    if k.allowed is Some {
        law_retries_stay_within_what_is_allowed(clipped, k.allowed->0);
        cpuset::law_narrowing_keeps_what_is_common(clipped@, k.allowed->0@);
    }
}

/// An answer that a run does not wait for changes nothing, and a finished run stays
/// as it is.
pub proof fn law_answers_out_of_turn_change_nothing(m: BindModel, answer: BindAnswer)
    requires
        answer is Dir ==> !(m.phase is TargetDir || m.phase is RetryDir),
        answer is Current ==> !(m.phase is Query),
        answer is Outcome ==> !(m.phase is First || m.phase is Retry),
        answer is Allowed ==> !(m.phase is Allowed),
    ensures
        bind_next(m, answer) == m,
{
}

/// A thread joins a directory by its own number: a line with the number that reads
/// back as the thread, appended to the file `tasks` of just that directory, or of the
/// base where there is none. Nothing is written where cpusets are off.
pub proof fn law_threads_join_by_their_number(
    tid: i32,
    base: Seq<char>,
    dir: Seq<char>,
    cpuset_enabled: bool,
)
    ensures
        tasks_entry(tid, base, dir, cpuset_enabled) is Some <==> cpuset_enabled,
        tasks_entry(tid, base, dir, cpuset_enabled) matches Some((path, line)) ==> {
            &&& path == (if dir.len() == 0 {
                base
            } else {
                base + seq!['/'] + dir
            }) + seq!['/', 't', 'a', 's', 'k', 's']
            &&& line.len() > 1 && line.last() == '\n'
            &&& text::parsed_i32(line.drop_last()) == Some(tid as int)
        },
{
    reveal_strlit("/");
    reveal_strlit("/tasks");
    reveal_strlit("\n");
    assert("/"@ =~= seq!['/']);
    assert("/tasks"@ =~= seq!['/', 't', 'a', 's', 'k', 's']);
    text::law_signed_numbers_read_back(tid);
    let t = text::signed_text(tid as int);
    assert((t + "\n"@).drop_last() =~= t);
}

// ---------------------------------------------------------------------------
// Reporting failures
// ---------------------------------------------------------------------------

/// The failures that were reported, so that each is reported once.
pub struct FailLog {
    seen: Vec<(i32, String)>,
}

impl View for FailLog {
    type V = Set<(i32, Seq<char>)>;

    closed spec fn view(&self) -> Set<(i32, Seq<char>)> {
        Set::new(
            |p: (i32, Seq<char>)|
                exists|i: int|
                    0 <= i < self.seen@.len() && (#[trigger] self.seen@[i]).0 == p.0
                        && self.seen@[i].1@ == p.1,
        )
    }
}

impl FailLog {
    /// Nothing reported yet.
    pub fn new() -> (log: FailLog)
        ensures
            log@ == Set::<(i32, Seq<char>)>::empty(),
    {
        let log = FailLog { seen: Vec::new() };
        assert(log@ =~= Set::<(i32, Seq<char>)>::empty());
        log
    }

    /// Whether the failure to bind `tid` to `cpus` is to be reported: the first
    /// time that it comes, and never again.
    pub fn log_bind_fail(&mut self, tid: i32, cpus: &CpuSet) -> (first: bool)
        ensures
            first == !old(self)@.contains((tid, cpuset::range_text(cpus@))),
            final(self)@ == old(self)@.insert((tid, cpuset::range_text(cpus@))),
    {
        let text = cpus.to_range_string();
        let ghost key = (tid, cpuset::range_text(cpus@));
        for i in 0..self.seen.len()
            invariant
                *self == *old(self),
                text@ == key.1,
                key == (tid, cpuset::range_text(cpus@)),
                forall|j: int|
                    0 <= j < i ==> !((#[trigger] self.seen@[j]).0 == tid && self.seen@[j].1@
                        == text@),
        {
            if self.seen[i].0 == tid && same_text(self.seen[i].1.as_str(), text.as_str()) {
                proof {
                    assert(self.seen@[i as int].0 == key.0);
                    assert(self@.contains(key));
                    assert(self@ =~= old(self)@.insert(key));
                }
                return false;
            }
        }
        assert(!old(self)@.contains(key));
        self.seen.push((tid, text));
        proof {
            let s = self.seen@;
            let n = old(self).seen@.len() as int;
            assert forall|p: (i32, Seq<char>)| self@.contains(p) <==> (old(self)@.contains(p) || p
                == key) by {
                assert(s[n].0 == key.0 && s[n].1@ == key.1);
                if old(self)@.contains(p) {
                    let i = choose|i: int|
                        0 <= i < n && (#[trigger] old(self).seen@[i]).0 == p.0
                            && old(self).seen@[i].1@ == p.1;
                    assert(s[i] == old(self).seen@[i]);
                }
                if self@.contains(p) {
                    let i = choose|i: int|
                        0 <= i < s.len() && (#[trigger] s[i]).0 == p.0 && s[i].1@ == p.1;
                    if i < n {
                        assert(old(self).seen@[i] == s[i]);
                    }
                }
            }
            assert(self@ =~= old(self)@.insert(key));
        }
        true
    }
}

/// What a run asks for, phase by phase. It has a directory made for the very set that it
/// is about to ask for. It asks for its target and nothing else, after the thread joined
/// the directory that goes with the target, where cpusets are on.
pub proof fn law_runs_ask_for_their_target(run: &BindRun, a: BindAction)
    requires
        call_ensures(BindRun::action, (run,), a),
    ensures
        run.phase is TargetDir || run.phase is RetryDir <==> a is EnsureDir,
        run.phase is Query <==> a is GetAffinity,
        run.phase is First || run.phase is Retry <==> a is SetAffinity,
        run.phase is Allowed <==> a is ReadAllowed,
        run.phase is Done <==> a is Finish,
        a matches BindAction::EnsureDir { cpus } ==> cpus == run.target,
        a matches BindAction::SetAffinity { tasks, cpus } ==> {
            &&& cpus == run.target
            &&& tasks is Some <==> run.cpuset_enabled
        },
        a matches BindAction::SetAffinity { tasks: Some((path, line)), cpus } ==> {
            &&& path@ == (if run.dir@.len() == 0 {
                run.base@
            } else {
                run.base@ + seq!['/'] + run.dir@
            }) + seq!['/', 't', 'a', 's', 'k', 's']
            &&& text::parsed_i32(line@.drop_last()) == Some(run.tid as int)
            &&& line@.last() == '\n'
        },
        a matches BindAction::Finish { result, effective, refused } ==> run.phase
            == (BindPhase::Done { result, effective, refused }),
{
    law_threads_join_by_their_number(run.tid, run.base@, run.dir@, run.cpuset_enabled);
}

/// A failure is reported the first time that it comes and never again, whatever comes in
/// between; another thread's failure, or that of another set, is another failure.
pub proof fn law_failures_are_reported_once(
    first: &mut FailLog,
    second: &mut FailLog,
    tid: i32,
    cpus: &CpuSet,
    tid2: i32,
    cpus2: &CpuSet,
    one: bool,
    two: bool,
)
    requires
        call_ensures(FailLog::log_bind_fail, (first, tid, cpus), one),
        final(first)@.subset_of(old(second)@),
        call_ensures(FailLog::log_bind_fail, (second, tid2, cpus2), two),
    ensures
        tid == tid2 && cpus@ == cpus2@ ==> !two,
        old(second)@ == final(first)@ && (tid != tid2 || cpus@ != cpus2@) && !old(first)@.contains(
            (tid2, cpuset::range_text(cpus2@)),
        ) ==> two,
        old(first)@.subset_of(final(first)@),
{
    cpuset::law_range_text_is_injective(*cpus, *cpus2);
    cpuset::law_equal_masks_are_equal_sets(*cpus, *cpus2);
    assert(final(first)@.contains((tid, cpuset::range_text(cpus@))));
}

/// A binding starts with the CPUs of the request that are online, or all that are online
/// where none is. Where that is the request it keeps the request's directory and asks
/// what the thread has; where it is not, it first has a directory made for it, if cpusets
/// are on.
pub proof fn law_bindings_start_with_what_is_online(
    tid: i32,
    cpus: &CpuSet,
    cpuset_dir: &str,
    topo: &mut CpuTopology,
    base: &str,
    now: u64,
    online: Option<&str>,
    run: BindRun,
)
    requires
        call_ensures(affinity_set_ex, (tid, cpus, cpuset_dir, topo, base, now, online), run),
    ensures
        ({
            let there = final(topo).online_now@;
            &&& run.tid == tid && run.cpus == *cpus && run.base@ == base@
            &&& run.cpuset_enabled == old(topo).cpuset_enabled
            &&& forall|c: int|
                run.target@.contains(c) <==> there.contains(c) && (cpus@.contains(c) || forall|
                    x: int,
                | !(cpus@.contains(x) && there.contains(x)))
            &&& run.target == *cpus ==> run.dir@ == cpuset_dir@ && run.phase is Query
            &&& run.target != *cpus ==> run.dir@.len() == 0 && (run.phase is TargetDir
                <==> run.cpuset_enabled) && (run.phase is Query <==> !run.cpuset_enabled)
        }),
{
    cpuset::lemma_narrowed_has_mask(*cpus, final(topo).online_now);
    cpuset::law_narrowing_keeps_what_is_common(cpus@, final(topo).online_now@);
}

/// One answer, one step. The name of a directory becomes the run's directory, whichever
/// of the two it is. The thread's CPUs end the run where they are the target. A set that
/// the kernel took ends it as bound, a thread that is gone as dead, a first refusal as
/// invalid leads on to what is allowed, and any other refusal ends it as failed.
pub proof fn law_each_answer_takes_one_step(run: &mut BindRun, reply: BindReply)
    requires
        call_ensures(BindRun::step, (run, reply), ()),
    ensures
        final(run).tid == old(run).tid,
        final(run).cpus == old(run).cpus,
        final(run).cpuset_enabled == old(run).cpuset_enabled,
        !(old(run).phase is Allowed) ==> final(run).target == old(run).target,
        reply is Dir && old(run).phase is TargetDir ==> {
            &&& final(run).dir@ == reply->name@
            &&& final(run).phase is Query
        },
        reply is Dir && old(run).phase is RetryDir ==> {
            &&& final(run).dir@ == reply->name@
            &&& final(run).phase is Retry
        },
        reply is Current && old(run).phase is Query ==> {
            let met = reply->Current_cpus == Some(old(run).target);
            &&& final(run).phase is First <==> !met
            &&& final(run).phase is Done <==> met
        },
        reply is Outcome && (old(run).phase is First || old(run).phase is Retry) ==> {
            let errno = reply->errno;
            let again = old(run).phase is First && errno == Some(22i32);
            let shown = if old(run).target == old(run).cpus {
                None
            } else {
                Some(old(run).target)
            };
            &&& reply->ok ==> final(run).phase == (BindPhase::Done {
                result: AffinityResult::Bound,
                effective: shown,
                refused: None,
            })
            &&& !reply->ok && errno == Some(3i32) ==> final(run).phase == (BindPhase::Done {
                result: AffinityResult::Dead,
                effective: None,
                refused: None,
            })
            &&& !reply->ok && again ==> final(run).phase is Allowed
            &&& !reply->ok && errno != Some(3i32) && !again ==> final(run).phase == (
            BindPhase::Done {
                result: AffinityResult::Failed,
                effective: shown,
                refused: Some(old(run).target),
            })
        },
        reply is Allowed && old(run).phase is Allowed && reply->Allowed_cpus is Some ==> {
            let allowed = reply->Allowed_cpus->0@;
            let target = old(run).target@;
            &&& forall|c: int|
                final(run).target@.contains(c) <==> allowed.contains(c) && (target.contains(c)
                    || forall|x: int| !(target.contains(x) && allowed.contains(x)))
            &&& final(run).phase is RetryDir <==> old(run).cpuset_enabled
            &&& final(run).phase is Retry <==> !old(run).cpuset_enabled
            &&& final(run).dir@.len() == 0
        },
{
    if let BindReply::Allowed { cpus: Some(allowed) } = reply {
        law_retries_stay_within_what_is_allowed(old(run).target, allowed);
        cpuset::law_narrowing_keeps_what_is_common(old(run).target@, allowed@);
    }
    assert(final(run)@ == bind_next(old(run)@, reply@));
}

} // verus!
