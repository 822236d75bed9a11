//! What is known of the machine's CPUs: which are there, which are online, how
//! fast they are, and the cpuset directories that threads are put into.

use vstd::prelude::*;

use crate::common::{CPU_SETSIZE, EEXIST};
use crate::cpuset;
use crate::cpuset::{parse_cpu_ranges, CpuSet};
use crate::text;
use crate::text::{parse_unsigned, parse_usize, starts_with, trim, words};

verus! {

/// How long a reading of the online CPUs stays good, in milliseconds.
pub const ONLINE_REFRESH_MS: u64 = 1000;

/// The machine's CPUs and the state of its cpuset hierarchy.
pub struct CpuTopology {
    /// CPUs that the machine has.
    pub present_cpus: CpuSet,
    /// The same, as the kernel writes it.
    pub present_str: String,
    /// CPUs that are present and online, as last read. Thermal control takes big
    /// cores offline for a while; a mask with offline CPUs alone is refused.
    pub online_now: CpuSet,
    /// When `online_now` was last looked at, in milliseconds.
    pub online_at: u64,
    /// Memory nodes of the base cpuset.
    pub mems_str: String,
    /// Whether threads can be put into cpuset directories.
    pub cpuset_enabled: bool,
    /// Descriptor of the base cpuset directory, or -1.
    pub base_cpuset_fd: i32,
    /// CPUs of the lowest maximal frequency.
    pub e_core: CpuSet,
    /// CPUs in between.
    pub p_core: CpuSet,
    /// CPUs of the highest maximal frequency.
    pub hp_core: CpuSet,
}

impl Clone for CpuTopology {
    fn clone(&self) -> (t: CpuTopology)
        ensures
            t.present_str@ == self.present_str@,
            t.mems_str@ == self.mems_str@,
            t == (CpuTopology { present_str: t.present_str, mems_str: t.mems_str, ..*self }),
    {
        CpuTopology {
            present_cpus: self.present_cpus,
            present_str: self.present_str.clone(),
            online_now: self.online_now,
            online_at: self.online_at,
            mems_str: self.mems_str.clone(),
            cpuset_enabled: self.cpuset_enabled,
            base_cpuset_fd: self.base_cpuset_fd,
            e_core: self.e_core,
            p_core: self.p_core,
            hp_core: self.hp_core,
        }
    }
}

// ---------------------------------------------------------------------------
// Online CPUs
// ---------------------------------------------------------------------------

/// The online CPUs of `present` that `content` lists. `None` where there is no
/// content, or where it lists nothing.
pub open spec fn online_listed(content: Option<Seq<char>>, present: Set<int>) -> Option<Set<int>> {
    match content {
        Some(t) => {
            let named = cpuset::named_cpus(text::trimmed(t));
            if named == Set::<int>::empty() {
                None
            } else {
                Some(named.intersect(present))
            }
        },
        None => None,
    }
}

/// The online CPUs in `content`, which is what the kernel lists as online, or
/// `None` where that could not be read.
pub fn read_online_cpus(content: Option<&str>, present: &CpuSet) -> (out: Option<CpuSet>)
    ensures
        out.deep_view() == online_listed(content.deep_view(), present@),
{
    match content {
        Some(s) => {
            let o = parse_cpu_ranges(trim(s), None);
            if o.is_empty() {
                None
            } else {
                Some(o.intersection(present))
            }
        },
        None => None,
    }
}

impl CpuTopology {
    /// Whether the reading of the online CPUs is out of date at `now`.
    pub open spec fn is_stale(&self, now: u64) -> bool {
        now >= self.online_at + ONLINE_REFRESH_MS
    }

    /// The online CPUs after a look at `content` at the time `now`.
    pub open spec fn online_after(&self, now: u64, content: Option<Seq<char>>) -> Set<int> {
        match online_listed(content, self.present_cpus@) {
            Some(o) if self.is_stale(now) => o,
            _ => self.online_now@,
        }
    }

    /// Whether the online CPUs are due to be read again at `now`.
    pub fn refresh_due(&self, now: u64) -> (b: bool)
        requires
            self.online_at + ONLINE_REFRESH_MS <= u64::MAX,
        ensures
            b == self.is_stale(now),
    {
        now >= self.online_at + ONLINE_REFRESH_MS
    }

    /// Cuts `cpus` down to the CPUs that are online, and falls back to all of
    /// those where none of `cpus` is. `content` is what the kernel lists as
    /// online; it is looked at only when [`CpuTopology::refresh_due`] holds, and
    /// one that could not be read leaves the last reading in place.
    pub fn clip_online(&mut self, now: u64, content: Option<&str>, cpus: &CpuSet) -> (r: CpuSet)
        requires
            old(self).online_at + ONLINE_REFRESH_MS <= u64::MAX,
        ensures
            final(self).online_now@ == old(self).online_after(now, content.deep_view()),
            final(self).online_at == (if old(self).is_stale(now) {
                now
            } else {
                old(self).online_at
            }),
            *final(self) == (CpuTopology {
                online_now: final(self).online_now,
                online_at: final(self).online_at,
                ..*old(self)
            }),
            r@ == cpuset::narrowed(cpus@, final(self).online_now@),
    {
        if self.refresh_due(now) {
            if let Some(o) = read_online_cpus(content, &self.present_cpus) {
                self.online_now = o;
            }
            self.online_at = now;
        }
        cpus.narrow(&self.online_now)
    }
}

/// A clipped mask holds online CPUs alone, is empty only where no CPU is online,
/// and never gains a CPU that was not asked for while one that was is online.
pub proof fn law_clipped_masks_are_online(cpus: CpuSet, online: CpuSet)
    ensures
        cpuset::narrowed(cpus@, online@).subset_of(online@),
        cpuset::narrowed(cpus@, online@) == Set::<int>::empty() <==> online@ == Set::<int>::empty(),
        cpus@.intersect(online@) != Set::<int>::empty() ==> cpuset::narrowed(
            cpus@,
            online@,
        ).subset_of(cpus@),
        cpus@.subset_of(online@) && cpus@ != Set::<int>::empty() ==> cpuset::narrowed(cpus@, online@)
            == cpus@,
{
    let m = cpus@.intersect(online@);
    if online@ == Set::<int>::empty() {
        assert(m =~= Set::<int>::empty());
    }
    if cpus@.subset_of(online@) {
        assert(m =~= cpus@);
    }
}

/// A look at the online CPUs counts once a second has passed since the last one, and
/// only where something is listed; it then gives the listed CPUs that are present.
/// Anything else leaves what was known.
pub proof fn law_looks_count_once_a_second(
    topo: CpuTopology,
    now: u64,
    content: Option<Seq<char>>,
)
    ensures
        ({
            let after = topo.online_after(now, content);
            let named = cpuset::named_cpus(text::trimmed(content->0));
            let counts = now >= topo.online_at + 1000 && content is Some && named != Set::<
                int,
            >::empty();
            &&& counts ==> forall|c: int|
                after.contains(c) <==> named.contains(c) && topo.present_cpus@.contains(c)
            &&& !counts ==> after == topo.online_now@
            &&& topo.is_stale(now) == (now >= topo.online_at + 1000)
        }),
{
}

// ---------------------------------------------------------------------------
// Core tiers
// ---------------------------------------------------------------------------

/// One directory of the frequency policies, as read.
pub struct PolicyReading {
    /// Name of the directory.
    pub name: String,
    /// What its maximal frequency reads, where it can be read.
    pub max_freq: Option<String>,
    /// What its list of CPUs reads, where it can be read.
    pub related_cpus: Option<String>,
}

/// Whether one of `words` writes the number `c`.
pub open spec fn some_word_is(words: Seq<Seq<char>>, c: int) -> bool {
    exists|i: int|
        0 <= i < words.len() && text::parsed_unsigned(
            #[trigger] words[i],
            usize::MAX as nat,
        ) == Some(c as nat) && c >= 0
}

impl PolicyReading {
    /// The maximal frequency, 0 where there is none.
    pub open spec fn freq(&self) -> nat {
        match self.max_freq {
            Some(t) => match text::parsed_unsigned(text::trimmed(t@), u64::MAX as nat) {
                Some(f) => f,
                None => 0,
            },
            None => 0,
        }
    }

    /// Whether the list of CPUs holds `c`.
    pub open spec fn lists(&self, c: int) -> bool {
        match self.related_cpus {
            Some(t) => some_word_is(text::words_of(t@), c),
            None => false,
        }
    }

    /// Whether the directory is a policy with a frequency and at least one CPU.
    pub open spec fn counts(&self) -> bool {
        &&& text::has_prefix(self.name@, "policy"@)
        &&& self.freq() != 0
        &&& exists|c: int| self.lists(c)
    }

    /// The frequency and CPUs of the policy, where it counts.
    fn parse(&self) -> (out: Option<(u64, Vec<usize>)>)
        ensures
            out is Some <==> self.counts(),
            out matches Some((freq, cpus)) ==> {
                &&& freq == self.freq()
                &&& forall|c: usize| cpus@.contains(c) <==> self.lists(c as int)
            },
    {
        if !starts_with(self.name.as_str(), "policy") {
            return None;
        }
        let freq = match &self.max_freq {
            Some(s) => match parse_unsigned(trim(s.as_str()), u64::MAX) {
                Some(f) => f,
                None => 0,
            },
            None => 0,
        };
        if freq == 0 {
            return None;
        }
        let mut cpus: Vec<usize> = Vec::new();
        if let Some(s) = &self.related_cpus {
            let items = words(s.as_str());
            let ghost w = text::words_of(s@);
            assert(text::views(items@) == w);
            for i in 0..items.len()
                invariant
                    text::views(items@) == w,
                    forall|c: usize| #[trigger]
                        cpus@.contains(c) <==> some_word_is(w.take(i as int), c as int),
            {
                assert(w[i as int] == items@[i as int]@);
                let ghost before = cpus@;
                let parsed = parse_usize(items[i]);
                if let Some(c) = parsed {
                    cpus.push(c);
                }
                proof {
                    let p = w.take(i as int);
                    let q = w.take(i + 1);
                    assert forall|c: usize| #[trigger]
                        cpus@.contains(c) <==> some_word_is(q, c as int) by {
                        assert(cpus@.contains(c) <==> before.contains(c) || parsed == Some(c)) by {
                            if before.contains(c) {
                                let k = choose|k: int| 0 <= k < before.len() && before[k] == c;
                                assert(cpus@[k] == c);
                            }
                            if parsed is Some {
                                assert(cpus@[before.len() as int] == parsed->0);
                            }
                        }
                        if some_word_is(p, c as int) {
                            let j = choose|j: int|
                                0 <= j < p.len() && text::parsed_unsigned(
                                    #[trigger] p[j],
                                    usize::MAX as nat,
                                ) == Some(c as nat);
                            assert(q[j] == p[j]);
                        }
                        if some_word_is(q, c as int) {
                            let j = choose|j: int|
                                0 <= j < q.len() && text::parsed_unsigned(
                                    #[trigger] q[j],
                                    usize::MAX as nat,
                                ) == Some(c as nat);
                            if j < i {
                                assert(p[j] == q[j]);
                            }
                        }
                        assert(q[i as int] == w[i as int]);
                    }
                }
            }
            assert(w.take(w.len() as int) =~= w);
        }
        if cpus.len() == 0 {
            proof {
                assert forall|c: int| !self.lists(c) by {
                    if self.lists(c) {
                        assert(cpus@.contains(c as usize));
                    }
                }
            }
            None
        } else {
            assert(cpus@.contains(cpus@[0]));
            assert(self.lists(cpus@[0] as int));
            Some((freq, cpus))
        }
    }
}

/// Whether reading `i` counts and no counting one has a lower frequency.
pub open spec fn is_slowest(rs: Seq<PolicyReading>, i: int) -> bool {
    &&& rs[i].counts()
    &&& forall|j: int|
        0 <= j < rs.len() && (#[trigger] rs[j]).counts() ==> rs[i].freq() <= rs[j].freq()
}

/// Whether reading `i` counts and no counting one has a higher frequency.
pub open spec fn is_fastest(rs: Seq<PolicyReading>, i: int) -> bool {
    &&& rs[i].counts()
    &&& forall|j: int|
        0 <= j < rs.len() && (#[trigger] rs[j]).counts() ==> rs[j].freq() <= rs[i].freq()
}

/// The CPUs of the slowest policies.
pub open spec fn slow_cpus(rs: Seq<PolicyReading>) -> Set<int> {
    Set::new(
        |c: int|
            0 <= c < CPU_SETSIZE && exists|i: int|
                0 <= i < rs.len() && is_slowest(rs, i) && (#[trigger] rs[i]).lists(c),
    )
}

/// The CPUs of the fastest policies, where these are not the slowest as well.
pub open spec fn fast_cpus(rs: Seq<PolicyReading>) -> Set<int> {
    Set::new(
        |c: int|
            0 <= c < CPU_SETSIZE && exists|i: int|
                0 <= i < rs.len() && is_fastest(rs, i) && !is_slowest(rs, i) && (
                #[trigger] rs[i]).lists(c),
    )
}

/// The CPUs of the policies in between.
pub open spec fn middle_cpus(rs: Seq<PolicyReading>) -> Set<int> {
    Set::new(
        |c: int|
            0 <= c < CPU_SETSIZE && exists|i: int|
                0 <= i < rs.len() && rs[i].counts() && !is_fastest(rs, i) && !is_slowest(rs, i) && (
                #[trigger] rs[i]).lists(c),
    )
}

/// Adds every CPU of `cpus` that a mask can hold.
fn set_all(target: &mut CpuSet, cpus: &Vec<usize>)
    ensures
        forall|c: int| #[trigger]
            final(target)@.contains(c) <==> (old(target)@.contains(c) || (0 <= c < CPU_SETSIZE
                && cpus@.contains(c as usize))),
{
    for k in 0..cpus.len()
        invariant
            forall|c: int| #[trigger]
                target@.contains(c) <==> (old(target)@.contains(c) || (0 <= c < CPU_SETSIZE
                    && cpus@.take(k as int).contains(c as usize))),
    {
        let ghost before = target@;
        target.set(cpus[k]);
        proof {
            let p = cpus@.take(k as int);
            let q = cpus@.take(k + 1);
            assert(q =~= p.push(cpus@[k as int]));
            assert forall|c: int| #[trigger]
                target@.contains(c) <==> (old(target)@.contains(c) || (0 <= c < CPU_SETSIZE
                    && q.contains(c as usize))) by {
                if q.contains(c as usize) {
                    let m = choose|m: int| 0 <= m < q.len() && q[m] == c as usize;
                    if m < k {
                        assert(p[m] == c as usize);
                    }
                }
                if p.contains(c as usize) {
                    let m = choose|m: int| 0 <= m < p.len() && p[m] == c as usize;
                    assert(q[m] == c as usize);
                }
                assert(q[k as int] == cpus@[k as int]);
            }
        }
    }
    assert(cpus@.take(cpus@.len() as int) =~= cpus@);
}

/// Sorts the CPUs into tiers by their maximal frequency: the slowest, those in
/// between, and the fastest. With one frequency alone, all of them are slowest.
pub fn detect_core_types(readings: &Vec<PolicyReading>) -> (tiers: (CpuSet, CpuSet, CpuSet))
    ensures
        tiers.0@ == slow_cpus(readings@),
        tiers.1@ == middle_cpus(readings@),
        tiers.2@ == fast_cpus(readings@),
{
    let ghost rs = readings@;
    let n = readings.len();
    let mut any = false;
    let mut low: u64 = 0;
    let mut high: u64 = 0;
    for i in 0..n
        invariant
            rs == readings@,
            n == rs.len(),
            any <==> exists|j: int| 0 <= j < i && (#[trigger] rs[j]).counts(),
            any ==> exists|j: int| 0 <= j < i && (#[trigger] rs[j]).counts() && rs[j].freq() == low,
            any ==> exists|j: int|
                0 <= j < i && (#[trigger] rs[j]).counts() && rs[j].freq() == high,
            forall|j: int|
                0 <= j < i && (#[trigger] rs[j]).counts() ==> low <= rs[j].freq() <= high,
    {
        if let Some((freq, _)) = readings[i].parse() {
            assert(rs[i as int].counts());
            if !any || freq < low {
                low = freq;
            }
            if !any || freq > high {
                high = freq;
            }
            any = true;
        }
    }
    let mut e = CpuSet::new();
    let mut p = CpuSet::new();
    let mut h = CpuSet::new();
    for i in 0..n
        invariant
            rs == readings@,
            n == rs.len(),
            any <==> exists|j: int| 0 <= j < n && (#[trigger] rs[j]).counts(),
            any ==> exists|j: int| 0 <= j < n && (#[trigger] rs[j]).counts() && rs[j].freq() == low,
            any ==> exists|j: int|
                0 <= j < n && (#[trigger] rs[j]).counts() && rs[j].freq() == high,
            forall|j: int|
                0 <= j < n && (#[trigger] rs[j]).counts() ==> low <= rs[j].freq() <= high,
            forall|c: int| #[trigger]
                e@.contains(c) <==> (0 <= c < CPU_SETSIZE && exists|j: int|
                    0 <= j < i && is_slowest(rs, j) && (#[trigger] rs[j]).lists(c)),
            forall|c: int| #[trigger]
                p@.contains(c) <==> (0 <= c < CPU_SETSIZE && exists|j: int|
                    0 <= j < i && rs[j].counts() && !is_fastest(rs, j) && !is_slowest(rs, j) && (
                    #[trigger] rs[j]).lists(c)),
            forall|c: int| #[trigger]
                h@.contains(c) <==> (0 <= c < CPU_SETSIZE && exists|j: int|
                    0 <= j < i && is_fastest(rs, j) && !is_slowest(rs, j) && (
                    #[trigger] rs[j]).lists(c)),
    {
        if let Some((freq, cpus)) = readings[i].parse() {
            let ghost r = rs[i as int];
            proof {
                assert(r.counts());
                assert(is_slowest(rs, i as int) <==> freq == low);
                assert(is_fastest(rs, i as int) <==> freq == high);
            }
            if freq == low {
                set_all(&mut e, &cpus);
            } else if freq == high {
                set_all(&mut h, &cpus);
            } else {
                set_all(&mut p, &cpus);
            }
        }
    }
    assert(e@ =~= slow_cpus(rs));
    assert(p@ =~= middle_cpus(rs));
    assert(h@ =~= fast_cpus(rs));
    (e, p, h)
}

/// Whether a policy that counts has a frequency below `f`.
pub open spec fn some_is_slower(rs: Seq<PolicyReading>, f: nat) -> bool {
    exists|j: int| 0 <= j < rs.len() && (#[trigger] rs[j]).counts() && rs[j].freq() < f
}

/// Whether a policy that counts has a frequency above `f`.
pub open spec fn some_is_faster(rs: Seq<PolicyReading>, f: nat) -> bool {
    exists|j: int| 0 <= j < rs.len() && (#[trigger] rs[j]).counts() && rs[j].freq() > f
}

/// What a counting policy's rank says of the others.
proof fn lemma_ranks(rs: Seq<PolicyReading>, i: int)
    requires
        0 <= i < rs.len(),
        rs[i].counts(),
    ensures
        is_slowest(rs, i) == !some_is_slower(rs, rs[i].freq()),
        is_fastest(rs, i) == !some_is_faster(rs, rs[i].freq()),
{
}

/// A CPU is in the slowest tier exactly where a policy that counts lists it and no
/// policy that counts is slower; in the fastest where one lists it that none is faster
/// than, and some is slower than; and in the middle where one lists it that some is
/// slower and some is faster than. CPUs that no mask can hold are left out.
pub proof fn law_tiers_follow_the_frequencies(rs: Seq<PolicyReading>, c: int)
    ensures
        slow_cpus(rs).contains(c) <==> 0 <= c < 1024 && exists|i: int|
            0 <= i < rs.len() && (#[trigger] rs[i]).counts() && rs[i].lists(c) && !some_is_slower(
                rs,
                rs[i].freq(),
            ),
        fast_cpus(rs).contains(c) <==> 0 <= c < 1024 && exists|i: int|
            0 <= i < rs.len() && (#[trigger] rs[i]).counts() && rs[i].lists(c) && some_is_slower(
                rs,
                rs[i].freq(),
            ) && !some_is_faster(rs, rs[i].freq()),
        middle_cpus(rs).contains(c) <==> 0 <= c < 1024 && exists|i: int|
            0 <= i < rs.len() && (#[trigger] rs[i]).counts() && rs[i].lists(c) && some_is_slower(
                rs,
                rs[i].freq(),
            ) && some_is_faster(rs, rs[i].freq()),
{
    assert forall|i: int| 0 <= i < rs.len() && (#[trigger] rs[i]).counts() implies is_slowest(rs, i)
        == !some_is_slower(rs, rs[i].freq()) && is_fastest(rs, i) == !some_is_faster(
        rs,
        rs[i].freq(),
    ) by {
        lemma_ranks(rs, i);
    }
}

/// A directory counts exactly where its name starts with `policy`, its frequency reads
/// as a number other than zero, and its list holds a number. White space around the
/// frequency makes no difference, and the list holds the numbers among its words.
pub proof fn law_policies_count_by_what_they_read(r: PolicyReading, f: nat, c: nat)
    ensures
        r.counts() <==> text::has_prefix(r.name@, seq!['p', 'o', 'l', 'i', 'c', 'y']) && r.freq()
            > 0 && exists|x: int| r.lists(x),
        r.max_freq matches Some(t) && f <= u64::MAX && text::trimmed(t@) == text::decimal_text(f)
            ==> r.freq() == f,
        r.max_freq is None ==> r.freq() == 0,
        r.max_freq matches Some(t) && text::parsed_unsigned(text::trimmed(t@), u64::MAX as nat) is None
            ==> r.freq() == 0,
        r.related_cpus matches Some(t) && c <= usize::MAX && text::words_of(t@).contains(
            text::decimal_text(c),
        ) ==> r.lists(c as int),
        r.related_cpus is Some && r.lists(c as int) ==> exists|i: int|
            0 <= i < text::words_of(r.related_cpus->0@).len() && text::parsed_unsigned(
                #[trigger] text::words_of(r.related_cpus->0@)[i],
                usize::MAX as nat,
            ) == Some(c),
        r.related_cpus is None ==> !r.lists(c as int),
{
    reveal_strlit("policy");
    assert("policy"@ =~= seq!['p', 'o', 'l', 'i', 'c', 'y']);
    text::lemma_decimal_round_trip(f);
    text::lemma_decimal_round_trip(c);
    if let Some(t) = r.related_cpus {
        let w = text::words_of(t@);
        if w.contains(text::decimal_text(c)) && c <= usize::MAX {
            let i = w.index_of(text::decimal_text(c));
            assert(text::parsed_unsigned(w[i], usize::MAX as nat) == Some(c));
        }
    }
}

/// Whether a counting policy lists `c`.
pub open spec fn is_listed(rs: Seq<PolicyReading>, c: int) -> bool {
    exists|i: int| 0 <= i < rs.len() && rs[i].counts() && (#[trigger] rs[i]).lists(c)
}

/// The tiers hold every CPU that a counting policy lists, and no other.
pub proof fn law_tiers_hold_all_listed_cpus(rs: Seq<PolicyReading>)
    ensures
        forall|c: int|
            slow_cpus(rs).union(middle_cpus(rs)).union(fast_cpus(rs)).contains(c) <==> (0 <= c
                < CPU_SETSIZE && is_listed(rs, c)),
{
    let all = slow_cpus(rs).union(middle_cpus(rs)).union(fast_cpus(rs));
    assert forall|c: int| all.contains(c) <==> (0 <= c < CPU_SETSIZE && is_listed(rs, c)) by {
        if 0 <= c < CPU_SETSIZE && is_listed(rs, c) {
            let i = choose|i: int|
                0 <= i < rs.len() && rs[i].counts() && (#[trigger] rs[i]).lists(c);
            if is_slowest(rs, i) {
                assert(slow_cpus(rs).contains(c));
            } else if is_fastest(rs, i) {
                assert(fast_cpus(rs).contains(c));
            } else {
                assert(middle_cpus(rs).contains(c));
            }
        }
        if slow_cpus(rs).contains(c) {
            let i = choose|i: int|
                0 <= i < rs.len() && is_slowest(rs, i) && (#[trigger] rs[i]).lists(c);
            assert(rs[i].counts() && rs[i].lists(c));
        }
        if fast_cpus(rs).contains(c) {
            let i = choose|i: int|
                0 <= i < rs.len() && is_fastest(rs, i) && !is_slowest(rs, i) && (
                #[trigger] rs[i]).lists(c);
            assert(rs[i].counts() && rs[i].lists(c));
        }
    }
}

/// Where no CPU is listed under two frequencies, no CPU is in two tiers.
pub proof fn law_tiers_are_disjoint(rs: Seq<PolicyReading>)
    requires
        forall|i: int, j: int, c: int|
            0 <= i < rs.len() && 0 <= j < rs.len() && rs[i].counts() && rs[j].counts()
                && #[trigger] rs[i].lists(c) && #[trigger] rs[j].lists(c) ==> rs[i].freq()
                == rs[j].freq(),
    ensures
        slow_cpus(rs).disjoint(middle_cpus(rs)),
        slow_cpus(rs).disjoint(fast_cpus(rs)),
        middle_cpus(rs).disjoint(fast_cpus(rs)),
{
    let s = slow_cpus(rs);
    let m = middle_cpus(rs);
    let f = fast_cpus(rs);
    assert forall|c: int| !(s.contains(c) && m.contains(c)) && !(s.contains(c) && f.contains(c))
        && !(m.contains(c) && f.contains(c)) by {
        let i = choose|i: int|
            0 <= i < rs.len() && is_slowest(rs, i) && (#[trigger] rs[i]).lists(c);
        let j = choose|j: int|
            0 <= j < rs.len() && rs[j].counts() && !is_fastest(rs, j) && !is_slowest(rs, j) && (
            #[trigger] rs[j]).lists(c);
        let k = choose|k: int|
            0 <= k < rs.len() && is_fastest(rs, k) && !is_slowest(rs, k) && (
            #[trigger] rs[k]).lists(c);
        if s.contains(c) && m.contains(c) {
            assert(rs[i].lists(c) && rs[j].lists(c));
            assert(is_slowest(rs, j));
        }
        if s.contains(c) && f.contains(c) {
            assert(rs[i].lists(c) && rs[k].lists(c));
            assert(is_slowest(rs, k));
        }
        if m.contains(c) && f.contains(c) {
            assert(rs[j].lists(c) && rs[k].lists(c));
            assert(is_fastest(rs, j));
        }
    }
}

// ---------------------------------------------------------------------------
// Start-up
// ---------------------------------------------------------------------------

/// A text that was read, trimmed, or the empty one where it could not be read.
pub open spec fn trimmed_or_empty(content: Option<Seq<char>>) -> Seq<char> {
    match content {
        Some(t) => text::trimmed(t),
        None => seq![],
    }
}

/// The topology at start: `present` and `online` are what the kernel lists,
/// `policies` what the frequency policies read, and `now` the time. Cpusets are
/// off until [`CpuTopology::attach_base`] turns them on.
pub fn init_cpu_topo(
    present: Option<&str>,
    online: Option<&str>,
    now: u64,
    policies: &Vec<PolicyReading>,
) -> (topo: CpuTopology)
    ensures
        topo.present_str@ == trimmed_or_empty(present.deep_view()),
        topo.present_cpus@ == cpuset::named_cpus(topo.present_str@),
        topo.online_now@ == (match online_listed(online.deep_view(), topo.present_cpus@) {
            Some(o) => o,
            None => topo.present_cpus@,
        }),
        topo.online_at == now,
        topo.mems_str@ == Seq::<char>::empty(),
        !topo.cpuset_enabled,
        topo.base_cpuset_fd == -1,
        topo.e_core@ == slow_cpus(policies@),
        topo.p_core@ == middle_cpus(policies@),
        topo.hp_core@ == fast_cpus(policies@),
{
    let present_str = match present {
        Some(s) => trim(s).to_owned(),
        None => String::new(),
    };
    let present_cpus = parse_cpu_ranges(present_str.as_str(), None);
    let online_now = match read_online_cpus(online, &present_cpus) {
        Some(o) => o,
        None => present_cpus,
    };
    let (e_core, p_core, hp_core) = detect_core_types(policies);
    CpuTopology {
        present_cpus,
        present_str,
        online_now,
        online_at: now,
        mems_str: String::new(),
        cpuset_enabled: false,
        base_cpuset_fd: -1,
        e_core,
        p_core,
        hp_core,
    }
}

impl CpuTopology {
    /// Starts making the base cpuset directory `base`, which is to hold every CPU
    /// and the first memory node.
    pub fn base_dir(&self, base: &str) -> (run: DirRun)
        ensures
            run.path@ == base@,
            run.cpus@ == self.present_str@,
            run.mems@ == "0"@,
            run.phase == DirPhase::Make,
    {
        create_cpuset_dir(base, self.present_str.as_str(), "0")
    }
}

/// What became of the base cpuset directory at start.
pub struct BaseCpuset {
    /// Whether the directory is there, with its CPUs and memory nodes written.
    pub created: bool,
    /// Descriptor that opening it gave, or -1. It counts only where `created`.
    pub fd: i32,
    /// What its memory nodes read, where they can be read.
    pub mems: Option<String>,
}

impl CpuTopology {
    /// Takes note of the base cpuset directory. `None` stands for a machine
    /// without cpusets, on which nothing changes.
    pub fn attach_base(&mut self, base: Option<BaseCpuset>)
        ensures
            base is None ==> *final(self) == *old(self),
            base matches Some(b) ==> {
                &&& final(self).base_cpuset_fd == (if b.created {
                    b.fd
                } else {
                    old(self).base_cpuset_fd
                })
                &&& final(self).cpuset_enabled == (old(self).cpuset_enabled || (b.created && b.fd
                    != -1))
                &&& final(self).mems_str@ == (match b.mems {
                    Some(m) => text::trimmed(m@),
                    None => "0"@,
                })
                &&& *final(self) == (CpuTopology {
                    base_cpuset_fd: final(self).base_cpuset_fd,
                    cpuset_enabled: final(self).cpuset_enabled,
                    mems_str: final(self).mems_str,
                    ..*old(self)
                })
            },
    {
        if let Some(b) = base {
            if b.created {
                self.base_cpuset_fd = b.fd;
                if b.fd != -1 {
                    self.cpuset_enabled = true;
                }
            }
            self.mems_str = match &b.mems {
                Some(m) => trim(m.as_str()).to_owned(),
                None => "0".to_owned(),
            };
        }
    }
}

// ---------------------------------------------------------------------------
// Cpuset directories
// ---------------------------------------------------------------------------

/// How far making a cpuset directory has come.
#[derive(Clone, Copy)]
pub enum DirPhase {
    /// The directory is to be made.
    Make,
    /// Its mode is to be set.
    Mode,
    /// Its owner is to be set.
    Owner,
    /// Its CPUs are to be written.
    Cpus,
    /// Its memory nodes are to be written.
    Mems,
    /// Everything was done.
    Made,
    /// A step failed, and the rest was left.
    Failed,
}

/// Permissions of a cpuset directory: everyone may look, its owner may write.
pub const DIR_MODE: u32 = 0o755;

/// User and group that own a cpuset directory: the superuser's.
pub const DIR_OWNER: u32 = 0;

/// What to do next for a cpuset directory.
pub enum DirAction {
    /// Make the directory, with the permissions `mode`.
    MakeDir { mode: u32 },
    /// Give it the permissions `mode`, whatever it was made with.
    SetMode { mode: u32 },
    /// Give it to the user `uid` and the group `gid`.
    SetOwner { uid: u32, gid: u32 },
    /// Write `content` to the file `path`.
    WriteFile { path: String, content: String },
    /// Nothing is left to do; `made` says whether the directory can be used.
    Finish { made: bool },
}

/// A cpuset directory in the making.
pub struct DirRun {
    /// Path of the directory.
    pub path: String,
    /// CPUs that it is to hold.
    pub cpus: String,
    /// Memory nodes that it is to hold.
    pub mems: String,
    /// How far it has come.
    pub phase: DirPhase,
}

/// The phase after a step that went well or not. A directory that is already
/// there is as good as a new one.
pub open spec fn dir_next(phase: DirPhase, ok: bool, errno: Option<i32>) -> DirPhase {
    match phase {
        DirPhase::Make => if ok || errno == Some(EEXIST) {
            DirPhase::Mode
        } else {
            DirPhase::Failed
        },
        DirPhase::Mode => if ok {
            DirPhase::Owner
        } else {
            DirPhase::Failed
        },
        DirPhase::Owner => if ok {
            DirPhase::Cpus
        } else {
            DirPhase::Failed
        },
        DirPhase::Cpus => if ok {
            DirPhase::Mems
        } else {
            DirPhase::Failed
        },
        DirPhase::Mems => if ok {
            DirPhase::Made
        } else {
            DirPhase::Failed
        },
        DirPhase::Made => DirPhase::Made,
        DirPhase::Failed => DirPhase::Failed,
    }
}

/// Starts making the cpuset directory `path` for `cpus` and `mems`.
pub fn create_cpuset_dir(path: &str, cpus: &str, mems: &str) -> (run: DirRun)
    ensures
        run.path@ == path@,
        run.cpus@ == cpus@,
        run.mems@ == mems@,
        run.phase == DirPhase::Make,
{
    DirRun {
        path: path.to_owned(),
        cpus: cpus.to_owned(),
        mems: mems.to_owned(),
        phase: DirPhase::Make,
    }
}

impl DirRun {
    /// What is to be done in the current phase.
    pub fn action(&self) -> (a: DirAction)
        ensures
            match self.phase {
                DirPhase::Make => a == (DirAction::MakeDir { mode: DIR_MODE }),
                DirPhase::Mode => a == (DirAction::SetMode { mode: DIR_MODE }),
                DirPhase::Owner => a == (DirAction::SetOwner { uid: DIR_OWNER, gid: DIR_OWNER }),
                DirPhase::Cpus => a matches DirAction::WriteFile { path, content } && path@
                    == self.path@ + "/cpus"@ && content@ == self.cpus@,
                DirPhase::Mems => a matches DirAction::WriteFile { path, content } && path@
                    == self.path@ + "/mems"@ && content@ == self.mems@,
                DirPhase::Made => a == (DirAction::Finish { made: true }),
                DirPhase::Failed => a == (DirAction::Finish { made: false }),
            },
    {
        match self.phase {
            DirPhase::Make => DirAction::MakeDir { mode: DIR_MODE },
            DirPhase::Mode => DirAction::SetMode { mode: DIR_MODE },
            DirPhase::Owner => DirAction::SetOwner { uid: DIR_OWNER, gid: DIR_OWNER },
            DirPhase::Cpus => DirAction::WriteFile {
                path: self.path.clone().concat("/cpus"),
                content: self.cpus.clone(),
            },
            DirPhase::Mems => DirAction::WriteFile {
                path: self.path.clone().concat("/mems"),
                content: self.mems.clone(),
            },
            DirPhase::Made => DirAction::Finish { made: true },
            DirPhase::Failed => DirAction::Finish { made: false },
        }
    }

    /// Takes note of how the last action went: whether it succeeded, and the
    /// error number where it did not.
    pub fn step(&mut self, ok: bool, errno: Option<i32>)
        ensures
            *final(self) == (DirRun {
                phase: dir_next(old(self).phase, ok, errno),
                ..*old(self)
            }),
    {
        let exists_already = match errno {
            Some(e) => e == EEXIST,
            None => false,
        };
        self.phase = match self.phase {
            DirPhase::Make => if ok || exists_already {
                DirPhase::Mode
            } else {
                DirPhase::Failed
            },
            DirPhase::Mode => if ok {
                DirPhase::Owner
            } else {
                DirPhase::Failed
            },
            DirPhase::Owner => if ok {
                DirPhase::Cpus
            } else {
                DirPhase::Failed
            },
            DirPhase::Cpus => if ok {
                DirPhase::Mems
            } else {
                DirPhase::Failed
            },
            DirPhase::Mems => if ok {
                DirPhase::Made
            } else {
                DirPhase::Failed
            },
            DirPhase::Made => DirPhase::Made,
            DirPhase::Failed => DirPhase::Failed,
        };
    }
}

/// The phase after the steps in `replies`.
pub open spec fn dir_after(replies: Seq<(bool, Option<i32>)>) -> DirPhase
    decreases replies.len(),
{
    if replies.len() == 0 {
        DirPhase::Make
    } else {
        dir_next(dir_after(replies.drop_last()), replies.last().0, replies.last().1)
    }
}

/// Making a directory takes five steps. It ends well exactly when each of them
/// does, a directory that is already there aside.
pub proof fn law_directory_needs_every_step(replies: Seq<(bool, Option<i32>)>)
    requires
        replies.len() == 5,
    ensures
        dir_after(replies) == DirPhase::Made || dir_after(replies) == DirPhase::Failed,
        dir_after(replies) == DirPhase::Made <==> {
            &&& replies[0].0 || replies[0].1 == Some(EEXIST)
            &&& forall|i: int| 1 <= i < 5 ==> (#[trigger] replies[i]).0
        },
{
    let r4 = replies.drop_last();
    let r3 = r4.drop_last();
    let r2 = r3.drop_last();
    let r1 = r2.drop_last();
    let r0 = r1.drop_last();
    assert(dir_after(r0) == DirPhase::Make);
    assert(r1.last() == replies[0]);
    assert(dir_after(r1) == dir_next(DirPhase::Make, replies[0].0, replies[0].1));
    assert(r2.last() == replies[1]);
    assert(dir_after(r2) == dir_next(dir_after(r1), replies[1].0, replies[1].1));
    assert(r3.last() == replies[2]);
    assert(dir_after(r3) == dir_next(dir_after(r2), replies[2].0, replies[2].1));
    assert(r4.last() == replies[3]);
    assert(dir_after(r4) == dir_next(dir_after(r3), replies[3].0, replies[3].1));
    assert(replies.last() == replies[4]);
}

/// Each step of making a directory leads to the next where it succeeds, and to failure
/// where it does not; only that the directory is there already is as good as success,
/// and only for making it. Where nothing is left to do, nothing changes.
pub proof fn law_directories_are_made_step_by_step(ok: bool, errno: Option<i32>)
    ensures
        dir_next(DirPhase::Make, ok, errno) == (if ok || errno == Some(17i32) {
            DirPhase::Mode
        } else {
            DirPhase::Failed
        }),
        dir_next(DirPhase::Mode, true, errno) == DirPhase::Owner,
        dir_next(DirPhase::Owner, true, errno) == DirPhase::Cpus,
        dir_next(DirPhase::Cpus, true, errno) == DirPhase::Mems,
        dir_next(DirPhase::Mems, true, errno) == DirPhase::Made,
        forall|p: DirPhase|
            p != DirPhase::Make && p != DirPhase::Made ==> #[trigger] dir_next(p, false, errno)
                == DirPhase::Failed,
        dir_next(DirPhase::Made, ok, errno) == DirPhase::Made,
        dir_next(DirPhase::Failed, ok, errno) == DirPhase::Failed,
{
}

/// Starts making the cpuset directory for exactly `cpus` under `base`. Its name
/// is the text of the set. `None` where cpusets are off.
pub fn ensure_cpuset_dir(cpus: &CpuSet, topo: &CpuTopology, base: &str) -> (run: Option<DirRun>)
    ensures
        run is Some <==> topo.cpuset_enabled,
        run matches Some(r) ==> {
            &&& r.path@ == base@ + "/"@ + cpuset::range_text(cpus@)
            &&& r.cpus@ == cpuset::range_text(cpus@)
            &&& r.mems@ == topo.mems_str@
            &&& r.phase == DirPhase::Make
        },
{
    if !topo.cpuset_enabled {
        return None;
    }
    let dir_name = cpus.to_range_string();
    let path = base.to_owned().concat("/").concat(dir_name.as_str());
    Some(create_cpuset_dir(path.as_str(), dir_name.as_str(), topo.mems_str.as_str()))
}

impl DirRun {
    /// The directory's name for later use: the text of its CPUs, or nothing where
    /// it could not be made.
    pub fn dir_name(&self) -> (name: String)
        ensures
            name@ == (if self.phase == DirPhase::Made {
                self.cpus@
            } else {
                Seq::empty()
            }),
    {
        match self.phase {
            DirPhase::Made => self.cpus.clone(),
            _ => String::new(),
        }
    }
}

/// The directory for a set of CPUs lies right under the base, is named by the text of
/// the set and holds that set, with the base's memory nodes; different sets have
/// different directories. There is none where cpusets are off.
pub proof fn law_directories_stand_for_their_cpus(
    a: &CpuSet,
    b: &CpuSet,
    topo: &CpuTopology,
    base: &str,
    one: Option<DirRun>,
    other: Option<DirRun>,
)
    requires
        call_ensures(ensure_cpuset_dir, (a, topo, base), one),
        call_ensures(ensure_cpuset_dir, (b, topo, base), other),
    ensures
        one is Some <==> topo.cpuset_enabled,
        one is Some ==> {
            &&& one->0.path@ == base@ + seq!['/'] + one->0.cpus@
            &&& cpuset::named_cpus(one->0.cpus@) == a@
            &&& one->0.mems@ == topo.mems_str@
            &&& one->0.phase == DirPhase::Make
        },
        one is Some && other is Some ==> (one->0.cpus@ == other->0.cpus@ <==> a == b),
{
    reveal_strlit("/");
    assert("/"@ =~= seq!['/']);
    cpuset::law_range_text_round_trip(*a);
    cpuset::law_range_text_is_injective(*a, *b);
}

/// What a directory in the making asks for, phase by phase: the directory itself, open
/// to all for reading and to its owner for writing; the same permissions again; the
/// superuser as owner; and the CPUs and memory nodes in its files.
pub proof fn law_directories_get_mode_owner_and_files(run: &DirRun, a: DirAction, name: String)
    requires
        call_ensures(DirRun::action, (run,), a),
        call_ensures(DirRun::dir_name, (run,), name),
    ensures
        run.phase == DirPhase::Make <==> a == (DirAction::MakeDir { mode: 0o755 }),
        run.phase == DirPhase::Mode <==> a == (DirAction::SetMode { mode: 0o755 }),
        run.phase == DirPhase::Owner <==> a == (DirAction::SetOwner { uid: 0, gid: 0 }),
        run.phase == DirPhase::Cpus ==> a is WriteFile && a->path@ == run.path@ + seq![
            '/',
            'c',
            'p',
            'u',
            's',
        ] && a->content@ == run.cpus@,
        run.phase == DirPhase::Mems ==> a is WriteFile && a->path@ == run.path@ + seq![
            '/',
            'm',
            'e',
            'm',
            's',
        ] && a->content@ == run.mems@,
        run.phase == DirPhase::Made <==> a == (DirAction::Finish { made: true }),
        run.phase == DirPhase::Failed <==> a == (DirAction::Finish { made: false }),
        run.phase == DirPhase::Made ==> name@ == run.cpus@,
        run.phase != DirPhase::Made ==> name@.len() == 0,
{
    reveal_strlit("/cpus");
    reveal_strlit("/mems");
    assert("/cpus"@ =~= seq!['/', 'c', 'p', 'u', 's']);
    assert("/mems"@ =~= seq!['/', 'm', 'e', 'm', 's']);
}

/// At the start all listed CPUs are present; the online ones are those of them that are
/// listed as online, or all of them where nothing is; and the tiers are those of the
/// policies. Cpusets are off.
pub proof fn law_the_start_is_what_was_read(
    present: Option<&str>,
    online: Option<&str>,
    now: u64,
    policies: &Vec<PolicyReading>,
    topo: CpuTopology,
    tiers: (CpuSet, CpuSet, CpuSet),
)
    requires
        call_ensures(init_cpu_topo, (present, online, now, policies), topo),
        call_ensures(detect_core_types, (policies,), tiers),
    ensures
        present matches Some(s) ==> topo.present_str@ == text::trimmed(s@),
        present is None ==> topo.present_str@.len() == 0,
        topo.present_cpus@ == cpuset::named_cpus(topo.present_str@),
        ({
            let listed = cpuset::named_cpus(text::trimmed(online->0@));
            if online is Some && listed != Set::<int>::empty() {
                forall|c: int|
                    topo.online_now@.contains(c) <==> listed.contains(c)
                        && topo.present_cpus@.contains(c)
            } else {
                topo.online_now@ == topo.present_cpus@
            }
        }),
        topo.online_at == now,
        !topo.cpuset_enabled && topo.base_cpuset_fd == -1 && topo.mems_str@.len() == 0,
        topo.e_core == tiers.0 && topo.p_core == tiers.1 && topo.hp_core == tiers.2,
{
    if let Some(s) = present {
        assert(present.deep_view() == Some(s@));
    }
    if let Some(s) = online {
        assert(online.deep_view() == Some(s@));
    }
    cpuset::law_equal_masks_are_equal_sets(topo.e_core, tiers.0);
    cpuset::law_equal_masks_are_equal_sets(topo.p_core, tiers.1);
    cpuset::law_equal_masks_are_equal_sets(topo.hp_core, tiers.2);
}

/// Cutting a request down leaves the CPUs of the request that are online, or all that
/// are online where none is, by what is then known of the online CPUs; and changes
/// nothing else of what is known.
pub proof fn law_requests_are_cut_to_what_is_online(
    topo: &mut CpuTopology,
    now: u64,
    content: Option<&str>,
    cpus: &CpuSet,
    r: CpuSet,
)
    requires
        call_ensures(CpuTopology::clip_online, (topo, now, content, cpus), r),
    ensures
        ({
            let online = final(topo).online_now@;
            let named = cpuset::named_cpus(text::trimmed(content->0@));
            let looks = now >= old(topo).online_at + 1000;
            let counts = looks && content is Some && named != Set::<int>::empty();
            &&& forall|c: int|
                r@.contains(c) <==> online.contains(c) && (cpus@.contains(c) || forall|x: int|
                    !(cpus@.contains(x) && online.contains(x)))
            &&& counts ==> forall|c: int|
                online.contains(c) <==> named.contains(c) && old(topo).present_cpus@.contains(c)
            &&& !counts ==> online == old(topo).online_now@
            &&& final(topo).online_at == (if looks {
                now
            } else {
                old(topo).online_at
            })
            &&& final(topo).present_cpus == old(topo).present_cpus
            &&& final(topo).cpuset_enabled == old(topo).cpuset_enabled
        }),
{
    if let Some(s) = content {
        assert(content.deep_view() == Some(s@));
    }
    law_looks_count_once_a_second(*old(topo), now, content.deep_view());
    cpuset::law_narrowing_keeps_what_is_common(cpus@, final(topo).online_now@);
}

/// The base directory turns cpusets on exactly where it was made and could be opened,
/// and never off; its memory nodes are what it reads, or the first where it cannot be
/// read.
pub proof fn law_the_base_turns_cpusets_on(topo: &mut CpuTopology, base: Option<BaseCpuset>)
    requires
        call_ensures(CpuTopology::attach_base, (topo, base), ()),
    ensures
        base is None ==> *final(topo) == *old(topo),
        base is Some ==> final(topo).cpuset_enabled == (old(topo).cpuset_enabled || (
        base->0.created && base->0.fd != -1)),
        base is Some ==> final(topo).mems_str@ == (match base->0.mems {
            Some(m) => text::trimmed(m@),
            None => seq!['0'],
        }),
        base is Some ==> final(topo).base_cpuset_fd == (if base->0.created {
            base->0.fd
        } else {
            old(topo).base_cpuset_fd
        }),
        final(topo).present_cpus == old(topo).present_cpus,
        final(topo).online_now == old(topo).online_now,
        final(topo).e_core == old(topo).e_core,
        final(topo).hp_core == old(topo).hp_core,
{
    reveal_strlit("0");
    assert("0"@ =~= seq!['0']);
}

} // verus!
