//! Sets of CPUs and their textual form (`0-3,6`).

use vstd::prelude::*;

use crate::common::{CPU_SETSIZE, CPU_WORDS, CPU_WORD_BITS};
use crate::text;
use crate::text::{find_char, parse_usize, push_decimal, split, trim};

verus! {

// ---------------------------------------------------------------------------
// The set
// ---------------------------------------------------------------------------

/// Whether bit `b` of `w` is on.
pub open spec fn word_has(w: u64, b: int) -> bool {
    w & (1u64 << (b as u64)) != 0
}

/// A set of CPUs, one bit for each, laid out as the kernel's affinity masks.
#[derive(Clone, Copy)]
pub struct CpuSet {
    /// CPU `c` is bit `c % 64` of word `c / 64`.
    pub bits: [u64; CPU_WORDS],
}

impl CpuSet {
    /// Whether `cpu` is in the set.
    pub open spec fn has(self, cpu: int) -> bool {
        0 <= cpu < CPU_SETSIZE && word_has(self.bits[cpu / 64], cpu % 64)
    }

    /// The members of the set below `n`.
    spec fn below(self, n: int) -> Set<int> {
        Set::new(|c: int| self.has(c) && c < n)
    }
}

impl View for CpuSet {
    type V = Set<int>;

    open spec fn view(&self) -> Set<int> {
        Set::new(|c: int| self.has(c))
    }
}

impl DeepView for CpuSet {
    type V = Set<int>;

    open spec fn deep_view(&self) -> Set<int> {
        self@
    }
}

impl PartialEq for CpuSet {
    fn eq(&self, other: &CpuSet) -> (r: bool) {
        for i in 0..CPU_WORDS
            invariant
                forall|j: int| 0 <= j < i ==> self.bits[j] == other.bits[j],
        {
            if self.bits[i] != other.bits[i] {
                return false;
            }
        }
        assert(self.bits =~= other.bits);
        true
    }
}

impl vstd::std_specs::cmp::PartialEqSpecImpl for CpuSet {
    open spec fn obeys_eq_spec() -> bool {
        true
    }

    open spec fn eq_spec(&self, other: &CpuSet) -> bool {
        *self == *other
    }
}

impl Default for CpuSet {
    fn default() -> (set: CpuSet)
        ensures
            set@ == Set::<int>::empty(),
    {
        let set = CpuSet { bits: [0u64; CPU_WORDS] };
        proof {
            assert forall|c: int| !set.has(c) by {
                lemma_word_zero(c % 64);
            }
            assert(set@ =~= Set::<int>::empty());
        }
        set
    }
}

// ---------------------------------------------------------------------------
// Bits of one word
// ---------------------------------------------------------------------------

/// Setting bit `b` changes no other bit.
proof fn lemma_word_set(w: u64, b: int, k: int)
    requires
        0 <= b < 64,
        0 <= k < 64,
    ensures
        word_has(w | (1u64 << (b as u64)), k) == (word_has(w, k) || k == b),
{
    let x = b as u64;
    let y = k as u64;
    assert((w | (1u64 << x)) & (1u64 << y) != 0 <==> (w & (1u64 << y) != 0 || x == y))
        by (bit_vector)
        requires
            x < 64,
            y < 64,
    ;
}

/// The bits of a union.
proof fn lemma_word_or(v: u64, w: u64, k: int)
    ensures
        word_has(v | w, k) == (word_has(v, k) || word_has(w, k)),
{
    let y = k as u64;
    assert((v | w) & (1u64 << y) != 0 <==> (v & (1u64 << y) != 0 || w & (1u64 << y) != 0))
        by (bit_vector);
}

/// The bits of an intersection.
proof fn lemma_word_and(v: u64, w: u64, k: int)
    ensures
        word_has(v & w, k) == (word_has(v, k) && word_has(w, k)),
{
    let y = k as u64;
    assert((v & w) & (1u64 << y) != 0 <==> (v & (1u64 << y) != 0 && w & (1u64 << y) != 0))
        by (bit_vector);
}

/// Zero has no bits.
proof fn lemma_word_zero(k: int)
    ensures
        !word_has(0, k),
{
    let y = k as u64;
    assert(0u64 & (1u64 << y) == 0) by (bit_vector);
}

/// Two words that differ at or above bit `n` differ in one bit there.
proof fn lemma_words_differ(v: u64, w: u64, n: u64) -> (k: int)
    requires
        n < 64,
        v >> n != w >> n,
    ensures
        0 <= k < 64,
        word_has(v, k) != word_has(w, k),
    decreases 64 - n,
{
    if word_has(v, n as int) != word_has(w, n as int) {
        n as int
    } else {
        assert(n < 63) by (bit_vector)
            requires
                n < 64,
                v >> n != w >> n,
                (v & (1u64 << n) != 0) == (w & (1u64 << n) != 0),
        ;
        let m = (n + 1) as u64;
        assert(v >> m != w >> m) by (bit_vector)
            requires
                n < 63,
                m == n + 1,
                v >> n != w >> n,
                (v & (1u64 << n) != 0) == (w & (1u64 << n) != 0),
        ;
        lemma_words_differ(v, w, m)
    }
}

/// Equality of the masks is equality of the sets: two masks are the same exactly
/// when they hold the same CPUs.
pub proof fn law_equal_masks_are_equal_sets(a: CpuSet, b: CpuSet)
    ensures
        a == b <==> a@ == b@,
{
    if a@ == b@ && a != b {
        assert(!(a.bits =~= b.bits));
        let i = choose|i: int| 0 <= i < CPU_WORDS && a.bits[i] != b.bits[i];
        let v = a.bits[i];
        let w = b.bits[i];
        assert(v >> 0u64 != w >> 0u64) by (bit_vector)
            requires
                v != w,
        ;
        let k = lemma_words_differ(v, w, 0);
        let c = 64 * i + k;
        assert(c / 64 == i && c % 64 == k);
        assert(a.has(c) != b.has(c));
        assert(a@.contains(c) != b@.contains(c));
    }
}

/// The mask that holds exactly the CPUs of `s`.
pub open spec fn mask_of(s: Set<int>) -> CpuSet {
    choose|m: CpuSet| m@ == s
}

/// A mask is the mask of its own CPUs.
pub proof fn lemma_mask_of(m: CpuSet)
    ensures
        mask_of(m@) == m,
{
    let c = mask_of(m@);
    assert(m@ == m@);
    assert(c@ == m@);
    law_equal_masks_are_equal_sets(c, m);
}

// ---------------------------------------------------------------------------
// Operations
// ---------------------------------------------------------------------------

impl CpuSet {
    /// The empty set.
    pub fn new() -> (set: CpuSet)
        ensures
            set@ == Set::<int>::empty(),
    {
        CpuSet::default()
    }

    /// Adds `cpu`. A CPU that no mask can hold is ignored.
    pub fn set(&mut self, cpu: usize)
        ensures
            final(self)@ == (if cpu < CPU_SETSIZE {
                old(self)@.insert(cpu as int)
            } else {
                old(self)@
            }),
    {
        if cpu < CPU_SETSIZE {
            let i = cpu / CPU_WORD_BITS;
            let b = (cpu % CPU_WORD_BITS) as u64;
            let w = self.bits[i];
            self.bits[i] = w | (1u64 << b);
            proof {
                assert forall|c: int| #[trigger]
                    self.has(c) == (old(self).has(c) || c == cpu as int) by {
                    if 0 <= c < CPU_SETSIZE {
                        if c / 64 == i as int {
                            lemma_word_set(w, b as int, c % 64);
                        }
                    }
                }
                assert(self@ =~= old(self)@.insert(cpu as int));
            }
        }
    }

    /// Whether `cpu` is in the set.
    pub fn is_set(&self, cpu: usize) -> (b: bool)
        ensures
            b == self@.contains(cpu as int),
    {
        if cpu < CPU_SETSIZE {
            let b = (cpu % CPU_WORD_BITS) as u64;
            self.bits[cpu / CPU_WORD_BITS] & (1u64 << b) != 0
        } else {
            false
        }
    }

    /// Number of CPUs in the set.
    pub fn count(&self) -> (n: usize)
        ensures
            n == self@.len(),
            self@.finite(),
    {
        let mut n: usize = 0;
        assert(self.below(0) =~= Set::<int>::empty());
        for cpu in 0..CPU_SETSIZE
            invariant
                n <= cpu,
                self.below(cpu as int).finite(),
                n == self.below(cpu as int).len(),
        {
            if self.is_set(cpu) {
                assert(self.below(cpu + 1) =~= self.below(cpu as int).insert(cpu as int));
                n = n + 1;
            } else {
                assert(self.below(cpu + 1) =~= self.below(cpu as int));
            }
        }
        assert(self.below(CPU_SETSIZE as int) =~= self@);
        n
    }

    /// Adds every CPU of `other`.
    pub fn or(&mut self, other: &CpuSet)
        ensures
            final(self)@ == old(self)@.union(other@),
    {
        for i in 0..CPU_WORDS
            invariant
                forall|j: int|
                    0 <= j < i ==> #[trigger] self.bits[j] == old(self).bits[j] | other.bits[j],
                forall|j: int| i <= j < CPU_WORDS ==> #[trigger] self.bits[j] == old(self).bits[j],
        {
            let w = self.bits[i] | other.bits[i];
            self.bits[i] = w;
        }
        proof {
            assert forall|c: int| #[trigger]
                self.has(c) == (old(self).has(c) || other.has(c)) by {
                if 0 <= c < CPU_SETSIZE {
                    lemma_word_or(old(self).bits[c / 64], other.bits[c / 64], c % 64);
                }
            }
            assert(self@ =~= old(self)@.union(other@));
        }
    }

    /// The CPUs that are in both sets.
    pub fn intersection(&self, other: &CpuSet) -> (r: CpuSet)
        ensures
            r@ == self@.intersect(other@),
    {
        let mut r = CpuSet::new();
        for i in 0..CPU_WORDS
            invariant
                forall|j: int|
                    0 <= j < i ==> #[trigger] r.bits[j] == self.bits[j] & other.bits[j],
        {
            r.bits[i] = self.bits[i] & other.bits[i];
        }
        proof {
            assert forall|c: int| #[trigger] r.has(c) == (self.has(c) && other.has(c)) by {
                if 0 <= c < CPU_SETSIZE {
                    lemma_word_and(self.bits[c / 64], other.bits[c / 64], c % 64);
                }
            }
            assert(r@ =~= self@.intersect(other@));
        }
        r
    }
}

/// `want` cut down to `limit`; all of `limit` where the two have nothing in common.
pub open spec fn narrowed(want: Set<int>, limit: Set<int>) -> Set<int> {
    if want.intersect(limit) == Set::<int>::empty() {
        limit
    } else {
        want.intersect(limit)
    }
}

/// Narrowing keeps every CPU that is wanted and allowed, and no other, as long as
/// there is one; where there is none, everything that is allowed takes its place.
pub proof fn law_narrowing_keeps_what_is_common(want: Set<int>, limit: Set<int>)
    ensures
        forall|c: int|
            narrowed(want, limit).contains(c) <==> limit.contains(c) && (want.contains(c)
                || forall|x: int| !(want.contains(x) && limit.contains(x))),
{
    let both = want.intersect(limit);
    if both == Set::<int>::empty() {
        assert forall|x: int| !(want.contains(x) && limit.contains(x)) by {
            assert(!both.contains(x));
        }
    } else {
        assert(!(both =~= Set::<int>::empty()));
        let y = choose|y: int| both.contains(y);
        assert(want.contains(y) && limit.contains(y));
    }
}

/// A mask whose first `n` words are those that `a` and `b` have in common.
proof fn lemma_common_words(a: CpuSet, b: CpuSet, n: nat) -> (m: CpuSet)
    requires
        n <= CPU_WORDS,
    ensures
        forall|i: int| 0 <= i < n ==> #[trigger] m.bits[i] == a.bits[i] & b.bits[i],
    decreases n,
{
    if n == 0 {
        a
    } else {
        let p = lemma_common_words(a, b, (n - 1) as nat);
        let i = n - 1;
        CpuSet { bits: vstd::array::spec_array_update(p.bits, i, a.bits[i] & b.bits[i]) }
    }
}

/// What is left of a mask after narrowing it is a mask again.
pub proof fn lemma_narrowed_has_mask(want: CpuSet, limit: CpuSet)
    ensures
        mask_of(narrowed(want@, limit@))@ == narrowed(want@, limit@),
{
    let m = lemma_common_words(want, limit, CPU_WORDS as nat);
    assert forall|c: int| #[trigger] m.has(c) == (want.has(c) && limit.has(c)) by {
        if 0 <= c < CPU_SETSIZE {
            lemma_word_and(want.bits[c / 64], limit.bits[c / 64], c % 64);
        }
    }
    assert(m@ =~= want@.intersect(limit@));
    lemma_mask_of(m);
    lemma_mask_of(limit);
}

impl CpuSet {
    /// Whether the set holds no CPU.
    pub fn is_empty(&self) -> (b: bool)
        ensures
            b == (self@ == Set::<int>::empty()),
    {
        let n = self.count();
        proof {
            if n == 0 {
                self@.lemma_len0_is_empty();
            }
        }
        n == 0
    }

    /// The set cut down to `limit`, or `limit` itself where nothing would be left.
    pub fn narrow(&self, limit: &CpuSet) -> (r: CpuSet)
        ensures
            r@ == narrowed(self@, limit@),
    {
        let c = self.intersection(limit);
        if c.is_empty() {
            *limit
        } else {
            c
        }
    }
}

// ---------------------------------------------------------------------------
// Writing a set as text
// ---------------------------------------------------------------------------

/// The maximal runs of consecutive CPUs of `s` below `n`, in ascending order,
/// each with its first and its last CPU.
pub open spec fn runs(s: Set<int>, n: nat) -> Seq<(int, int)>
    decreases n,
{
    if n == 0 {
        seq![]
    } else {
        let r = runs(s, (n - 1) as nat);
        let c = n - 1;
        if !s.contains(c) {
            r
        } else if r.len() > 0 && r.last().1 == c - 1 {
            r.drop_last().push((r.last().0, c))
        } else {
            r.push((c, c))
        }
    }
}

/// A run as text: `5` for a single CPU, `2-5` for more.
pub open spec fn run_text(run: (int, int)) -> Seq<char> {
    if run.0 == run.1 {
        text::decimal_text(run.0 as nat)
    } else {
        text::decimal_text(run.0 as nat) + seq!['-'] + text::decimal_text(run.1 as nat)
    }
}

/// Runs as text, with a comma between each two.
pub open spec fn list_text(rs: Seq<(int, int)>) -> Seq<char>
    decreases rs.len(),
{
    if rs.len() == 0 {
        seq![]
    } else if rs.len() == 1 {
        run_text(rs[0])
    } else {
        list_text(rs.drop_last()) + seq![','] + run_text(rs.last())
    }
}

/// A set as text: its runs, with a comma between each two.
pub open spec fn range_text(s: Set<int>) -> Seq<char> {
    list_text(runs(s, CPU_SETSIZE as nat))
}

/// The runs lie below `n`.
proof fn lemma_runs_bounds(s: Set<int>, n: nat)
    ensures
        forall|i: int|
            0 <= i < runs(s, n).len() ==> 0 <= (#[trigger] runs(s, n)[i]).0 <= runs(s, n)[i].1 < n,
    decreases n,
{
    if n > 0 {
        lemma_runs_bounds(s, (n - 1) as nat);
        let r = runs(s, (n - 1) as nat);
        let q = runs(s, n);
        assert forall|i: int| 0 <= i < q.len() implies 0 <= (#[trigger] q[i]).0 <= q[i].1 < n by {
            if i < r.len() {
                assert(0 <= r[i].0 <= r[i].1 < n - 1);
            }
        }
    }
}

/// CPUs that are not in the set add no run.
proof fn lemma_runs_gap(s: Set<int>, a: nat, b: nat)
    requires
        a <= b,
        forall|c: int| a <= c < b ==> !s.contains(c),
    ensures
        runs(s, b) == runs(s, a),
    decreases b,
{
    if a < b {
        lemma_runs_gap(s, a, (b - 1) as nat);
    }
}

/// Appends the run from `start` to `end` to `s`, after a comma unless it is the
/// first one. Without both ends there is no run, and nothing happens.
fn push_range(s: &mut String, start: Option<usize>, end: Option<usize>, first: &mut bool)
    ensures
        (start is Some && end is Some) ==> {
            &&& final(s)@ == old(s)@ + (if *old(first) {
                seq![]
            } else {
                seq![',']
            }) + run_text((start->0 as int, end->0 as int))
            &&& !*final(first)
        },
        !(start is Some && end is Some) ==> final(s)@ == old(s)@ && *final(first) == *old(first),
{
    if let (Some(lo), Some(hi)) = (start, end) {
        if !*first {
            proof {
                reveal_strlit(",");
                assert(","@ =~= seq![',']);
            }
            s.append(",");
        }
        let ghost head = s@;
        assert(head =~= old(s)@ + (if *old(first) {
            seq![]
        } else {
            seq![',']
        }));
        if lo == hi {
            push_decimal(s, lo as u64);
        } else {
            push_decimal(s, lo as u64);
            proof {
                reveal_strlit("-");
                assert("-"@ =~= seq!['-']);
            }
            s.append("-");
            push_decimal(s, hi as u64);
            assert(s@ =~= head + run_text((lo as int, hi as int)));
        }
        *first = false;
    }
}

/// What the scan in [`CpuSet::to_range_string`] has written when it has looked at
/// the CPUs below `n`: all runs but the one that it still holds open.
spec fn scanned(
    set: Set<int>,
    n: nat,
    text: Seq<char>,
    start: Option<usize>,
    end: Option<usize>,
    first: bool,
) -> bool {
    let r = runs(set, n);
    &&& start is Some <==> end is Some
    &&& start is Some ==> {
        &&& r.len() > 0
        &&& r.last() == (start->0 as int, end->0 as int)
        &&& text == list_text(r.drop_last())
        &&& first == (r.len() == 1)
    }
    &&& start is None ==> {
        &&& text == list_text(r)
        &&& first == (r.len() == 0)
        &&& r.len() > 0 ==> r.last().1 < n - 1
    }
}

impl CpuSet {
    /// The set as text: ascending, runs joined by a hyphen, commas between them.
    pub fn to_range_string(&self) -> (out: String)
        ensures
            out@ == range_text(self@),
    {
        let mut result = String::new();
        let mut start: Option<usize> = None;
        let mut end: Option<usize> = None;
        let mut first = true;

        for word_idx in 0..CPU_WORDS
            invariant
                scanned(self@, (word_idx * 64) as nat, result@, start, end, first),
        {
            let word = self.bits[word_idx];
            let base = word_idx * CPU_WORD_BITS;
            if word == 0 {
                proof {
                    assert forall|c: int| base <= c < base + 64 implies !self@.contains(c) by {
                        lemma_word_zero(c % 64);
                    }
                    lemma_runs_gap(self@, base as nat, (base + 64) as nat);
                    lemma_runs_bounds(self@, base as nat);
                }
                if start.is_some() {
                    let ghost r = runs(self@, base as nat);
                    push_range(&mut result, start, end, &mut first);
                    proof {
                        assert(r[r.len() - 1].1 < base);
                        lemma_list_text_push(r.drop_last(), r.last());
                        assert(r.drop_last().push(r.last()) =~= r);
                        assert(result@ =~= list_text(r));
                    }
                    start = None;
                    end = None;
                }
            } else {
                for bit in 0..CPU_WORD_BITS
                    invariant
                        word_idx < CPU_WORDS,
                        base == word_idx * 64,
                        word == self.bits[word_idx as int],
                        scanned(self@, (base + bit) as nat, result@, start, end, first),
                {
                    let ghost r = runs(self@, (base + bit) as nat);
                    let ghost cpu_g = base + bit;
                    proof {
                        assert(cpu_g / 64 == word_idx && cpu_g % 64 == bit);
                        lemma_runs_bounds(self@, (base + bit) as nat);
                    }
                    let b = bit as u64;
                    if word & (1u64 << b) != 0 {
                        let cpu = base + bit;
                        assert(self@.contains(cpu as int));
                        let joins = match end {
                            Some(e) => cpu == e + 1,
                            None => false,
                        };
                        if start.is_none() {
                            start = Some(cpu);
                            end = Some(cpu);
                            assert(r.push((cpu as int, cpu as int)).drop_last() =~= r);
                        } else if joins {
                            end = Some(cpu);
                            assert(r.drop_last().push((r.last().0, cpu as int)).drop_last()
                                =~= r.drop_last());
                        } else {
                            push_range(&mut result, start, end, &mut first);
                            proof {
                                lemma_list_text_push(r.drop_last(), r.last());
                                assert(r.drop_last().push(r.last()) =~= r);
                                assert(result@ =~= list_text(r));
                                assert(r.push((cpu as int, cpu as int)).drop_last() =~= r);
                            }
                            start = Some(cpu);
                            end = Some(cpu);
                        }
                    } else {
                        assert(!self@.contains(cpu_g as int));
                    }
                }
            }
        }
        let ghost r = runs(self@, CPU_SETSIZE as nat);
        push_range(&mut result, start, end, &mut first);
        proof {
            if start is Some {
                lemma_list_text_push(r.drop_last(), r.last());
                assert(r.drop_last().push(r.last()) =~= r);
                assert(result@ =~= list_text(r));
            }
        }
        result
    }
}

/// One more run at the end.
proof fn lemma_list_text_push(rs: Seq<(int, int)>, run: (int, int))
    ensures
        list_text(rs.push(run)) == list_text(rs) + (if rs.len() == 0 {
            seq![]
        } else {
            seq![',']
        }) + run_text(run),
{
    assert(rs.push(run).drop_last() =~= rs);
    if rs.len() == 0 {
        assert(list_text(rs) + seq![] + run_text(run) =~= run_text(run));
    }
}

// ---------------------------------------------------------------------------
// Reading a set from text
// ---------------------------------------------------------------------------

/// What separates the items of a list of CPUs.
pub open spec fn separators() -> Seq<char> {
    seq![',', ' ', '\t']
}

/// The first and last CPU that one item of a list names. `a-b` names all CPUs
/// between the two, in either order; an upper end that is no number counts as
/// the lower one. An item that does not start with a number names none.
pub open spec fn item_range(item: Seq<char>) -> Option<(nat, nat)> {
    let dash = text::find(item, seq!['-']) as int;
    let low = if dash < item.len() {
        text::parsed_unsigned(item.take(dash), usize::MAX as nat)
    } else {
        text::parsed_unsigned(item, usize::MAX as nat)
    };
    match low {
        Some(a) if a != usize::MAX => {
            let b = if dash < item.len() {
                match text::parsed_unsigned(item.skip(dash + 1), usize::MAX as nat) {
                    Some(b) => b,
                    None => a,
                }
            } else {
                a
            };
            if a > b {
                Some((b, a))
            } else {
                Some((a, b))
            }
        },
        _ => None,
    }
}

/// Whether one item of a list names `c`.
pub open spec fn item_names(item: Seq<char>, c: int) -> bool {
    match item_range(text::trimmed(item)) {
        Some((lo, hi)) => lo <= c <= hi,
        None => false,
    }
}

/// Whether one of `items` names `c`.
pub open spec fn items_name(items: Seq<Seq<char>>, c: int) -> bool {
    exists|i: int| 0 <= i < items.len() && item_names(#[trigger] items[i], c)
}

/// The CPUs that the list `text` names.
pub open spec fn named_cpus(text: Seq<char>) -> Set<int> {
    Set::new(|c: int| 0 <= c < CPU_SETSIZE && items_name(text::split_on(text, separators()), c))
}

/// The CPUs that `text` names, or those of them that are in `present` where that
/// is given.
pub open spec fn named_present(text: Seq<char>, present: Option<&CpuSet>) -> Set<int> {
    match present {
        Some(p) => named_cpus(text).intersect(p@),
        None => named_cpus(text),
    }
}

/// The range of one trimmed item; see [`item_range`].
fn parse_item(part: &str) -> (out: Option<(usize, usize)>)
    ensures
        out is Some <==> item_range(part@) is Some,
        out matches Some((lo, hi)) ==> item_range(part@) == Some((lo as nat, hi as nat)),
{
    let n = part.unicode_len();
    match find_char(part, '-') {
        Some(dash) => {
            let low = part.substring_char(0, dash);
            let high = part.substring_char(dash + 1, n);
            assert(low@ =~= part@.take(dash as int));
            assert(high@ =~= part@.skip(dash as int + 1));
            match parse_usize(low) {
                Some(a) => {
                    let b = match parse_usize(high) {
                        Some(b) => b,
                        None => a,
                    };
                    if a == usize::MAX {
                        None
                    } else if a > b {
                        Some((b, a))
                    } else {
                        Some((a, b))
                    }
                },
                None => None,
            }
        },
        None => {
            match parse_usize(part) {
                Some(a) => {
                    if a == usize::MAX {
                        None
                    } else {
                        Some((a, a))
                    }
                },
                None => None,
            }
        },
    }
}

/// Reads a list of CPUs such as `0-3,6-7` or `0 1 2 3`: items between commas,
/// spaces and tabs, in any mix. With `present`, CPUs outside it are left out.
pub fn parse_cpu_ranges(spec: &str, present: Option<&CpuSet>) -> (set: CpuSet)
    ensures
        set@ == named_present(spec@, present),
{
    let mut set = CpuSet::new();
    let parts = split(spec, &[',', ' ', '\t']);
    assert([',', ' ', '\t']@ =~= separators());
    let ghost items = text::split_on(spec@, separators());
    assert(text::views(parts@) == items);
    for n in 0..parts.len()
        invariant
            text::views(parts@) == items,
            forall|c: int| #[trigger]
                set@.contains(c) <==> (0 <= c < CPU_SETSIZE && items_name(
                    items.take(n as int),
                    c,
                ) && (present matches Some(p) ==> p@.contains(c))),
    {
        let part = trim(parts[n]);
        assert(text::views(parts@)[n as int] == parts@[n as int]@);
        let ghost before = set@;
        if let Some((lo, hi)) = parse_item(part) {
            let top: usize = if hi < CPU_SETSIZE - 1 {
                hi
            } else {
                CPU_SETSIZE - 1
            };
            let mut i: usize = lo;
            while i <= top
                invariant
                    top < CPU_SETSIZE,
                    lo <= i,
                    lo <= top ==> i <= top + 1,
                    forall|c: int| #[trigger]
                        set@.contains(c) <==> (before.contains(c) || (lo <= c < i && c <= top && (
                        present matches Some(p) ==> p@.contains(c)))),
                decreases top + 1 - i,
            {
                let wanted = match present {
                    Some(p) => p.is_set(i),
                    None => true,
                };
                if wanted {
                    set.set(i);
                }
                i = i + 1;
            }
        }
        proof {
            let old_items = items.take(n as int);
            let new_items = items.take(n + 1);
            assert forall|c: int| #[trigger]
                set@.contains(c) <==> (0 <= c < CPU_SETSIZE && items_name(new_items, c) && (
                present matches Some(p) ==> p@.contains(c))) by {
                if items_name(old_items, c) {
                    let i = choose|i: int|
                        0 <= i < old_items.len() && item_names(#[trigger] old_items[i], c);
                    assert(new_items[i] == old_items[i]);
                }
                if items_name(new_items, c) && !items_name(old_items, c) {
                    let i = choose|i: int|
                        0 <= i < new_items.len() && item_names(#[trigger] new_items[i], c);
                    if i < n {
                        assert(old_items[i] == new_items[i]);
                    }
                    assert(i == n);
                }
                assert(new_items[n as int] == parts@[n as int]@);
            }
        }
    }
    assert(items.take(items.len() as int) =~= items);
    assert(set@ =~= named_present(spec@, present));
    set
}

/// Reads a list of CPUs, with no other set to hold it against.
pub fn from_range(spec: &str) -> (set: CpuSet)
    ensures
        set@ == named_cpus(spec@),
{
    parse_cpu_ranges(spec, None)
}

impl CpuSet {
    /// Reads a list of CPUs such as `0-3,6-7`.
    pub fn from_range(spec: &str) -> (set: CpuSet)
        ensures
            set@ == named_cpus(spec@),
    {
        parse_cpu_ranges(spec, None)
    }
}

// ---------------------------------------------------------------------------
// Laws
// ---------------------------------------------------------------------------

/// A CPU below `n` is in the set exactly when one of the runs covers it.
proof fn lemma_runs_cover(s: Set<int>, n: nat, c: int)
    requires
        0 <= c < n,
    ensures
        s.contains(c) <==> exists|i: int|
            0 <= i < runs(s, n).len() && (#[trigger] runs(s, n)[i]).0 <= c <= runs(s, n)[i].1,
    decreases n,
{
    let r = runs(s, (n - 1) as nat);
    let q = runs(s, n);
    let last = n - 1;
    lemma_runs_bounds(s, (n - 1) as nat);
    if c < last {
        lemma_runs_cover(s, (n - 1) as nat, c);
        if s.contains(c) {
            let i = choose|i: int| 0 <= i < r.len() && (#[trigger] r[i]).0 <= c <= r[i].1;
            assert(q[i].0 <= c <= q[i].1);
        }
        if exists|i: int| 0 <= i < q.len() && (#[trigger] q[i]).0 <= c <= q[i].1 {
            let i = choose|i: int| 0 <= i < q.len() && (#[trigger] q[i]).0 <= c <= q[i].1;
            assert(i < r.len() && r[i].0 <= c <= r[i].1);
        }
    } else {
        if s.contains(c) {
            assert(q[q.len() - 1].0 <= c <= q[q.len() - 1].1) by {
                if r.len() > 0 && r.last().1 == c - 1 {
                    assert(r[r.len() - 1].0 <= r[r.len() - 1].1);
                }
            }
        } else if exists|i: int| 0 <= i < q.len() && (#[trigger] q[i]).0 <= c <= q[i].1 {
            let i = choose|i: int| 0 <= i < q.len() && (#[trigger] q[i]).0 <= c <= q[i].1;
            assert(r[i].1 < n - 1);
        }
    }
}

/// The runs of a set are ascending and maximal: between each two of them at
/// least one CPU is missing. They lie within the bounds of a mask, and together
/// they hold exactly the CPUs of the set.
pub proof fn law_runs_are_the_set(s: CpuSet)
    ensures
        ({
            let r = runs(s@, CPU_SETSIZE as nat);
            &&& forall|i: int|
                0 <= i < r.len() ==> 0 <= (#[trigger] r[i]).0 <= r[i].1 < CPU_SETSIZE
            &&& forall|i: int, j: int|
                0 <= i < j < r.len() ==> (#[trigger] r[i]).1 + 1 < (#[trigger] r[j]).0
            &&& forall|c: int|
                s@.contains(c) <==> exists|i: int|
                    0 <= i < r.len() && (#[trigger] r[i]).0 <= c <= r[i].1
        }),
{
    let n = CPU_SETSIZE as nat;
    let r = runs(s@, n);
    lemma_runs_bounds(s@, n);
    lemma_runs_apart(s@, n);
    assert forall|c: int|
        s@.contains(c) <==> exists|i: int|
            0 <= i < r.len() && (#[trigger] r[i]).0 <= c <= r[i].1 by {
        if 0 <= c < CPU_SETSIZE {
            lemma_runs_cover(s@, n, c);
        }
    }
}

/// Between two runs at least one CPU is missing.
proof fn lemma_runs_apart(s: Set<int>, n: nat)
    ensures
        forall|i: int, j: int|
            0 <= i < j < runs(s, n).len() ==> (#[trigger] runs(s, n)[i]).1 + 1 < (
            #[trigger] runs(s, n)[j]).0,
    decreases n,
{
    if n > 0 {
        let r = runs(s, (n - 1) as nat);
        let q = runs(s, n);
        lemma_runs_apart(s, (n - 1) as nat);
        lemma_runs_bounds(s, (n - 1) as nat);
        assert forall|i: int, j: int| 0 <= i < j < q.len() implies (#[trigger] q[i]).1 + 1 < (
        #[trigger] q[j]).0 by {
            if j < r.len() {
                assert(r[i].1 + 1 < r[j].0);
            } else {
                assert(q[i] == r[i]);
                if i < r.len() - 1 {
                    assert(r[i].1 + 1 < r[r.len() - 1].0);
                    assert(r[r.len() - 1].0 <= r[r.len() - 1].1 < n - 1);
                } else {
                    assert(r[i].1 < n - 1);
                }
            }
        }
    }
}

/// Splitting around a separator.
proof fn lemma_split_join(x: Seq<char>, c: char, y: Seq<char>, seps: Seq<char>)
    requires
        seps.contains(c),
    ensures
        text::split_on(x + seq![c] + y, seps) == text::split_on(x, seps) + text::split_on(y, seps),
    decreases x.len(),
{
    let s = x + seq![c] + y;
    text::lemma_find(x, seps);
    let i = text::find(x, seps);
    assert forall|j: int| 0 <= j < i implies !seps.contains(#[trigger] s[j]) by {
        assert(s[j] == x[j]);
    }
    if i < x.len() {
        assert(s[i as int] == x[i as int]);
    } else {
        assert(s[i as int] == c);
    }
    text::lemma_find_is(s, seps, i);
    assert(s.take(i as int) =~= x.take(i as int));
    if i < x.len() {
        let rest = x.skip(i as int + 1);
        lemma_split_join(rest, c, y, seps);
        assert(s.skip(i as int + 1) =~= rest + seq![c] + y);
        assert(text::split_on(s, seps) =~= text::split_on(x, seps) + text::split_on(y, seps));
    } else {
        assert(x.take(i as int) =~= x);
        assert(s.skip(i as int + 1) =~= y);
        assert(text::split_on(s, seps) =~= text::split_on(x, seps) + text::split_on(y, seps));
    }
}

/// The text of a run holds digits and hyphens alone, and reads as that run.
proof fn lemma_run_text(run: (int, int))
    requires
        0 <= run.0 <= run.1 < CPU_SETSIZE,
    ensures
        forall|i: int|
            0 <= i < run_text(run).len() ==> !separators().contains(#[trigger] run_text(run)[i]),
        text::trimmed(run_text(run)) == run_text(run),
        item_range(run_text(run)) == Some((run.0 as nat, run.1 as nat)),
{
    let t = run_text(run);
    let a = text::decimal_text(run.0 as nat);
    let b = text::decimal_text(run.1 as nat);
    text::lemma_decimal_round_trip(run.0 as nat);
    text::lemma_decimal_round_trip(run.1 as nat);
    assert forall|i: int| 0 <= i < t.len() implies text::is_digit(#[trigger] t[i]) || t[i]
        == '-' by {
        if i < a.len() {
            assert(t[i] == a[i]);
        } else if run.0 != run.1 && i > a.len() {
            assert(t[i] == b[i - a.len() - 1]);
        }
    }
    assert forall|i: int| 0 <= i < t.len() implies !separators().contains(#[trigger] t[i]) by {
        assert(text::is_digit(t[i]) || t[i] == '-');
    }
    assert(text::is_digit(t[0]) || t[0] == '-');
    assert(text::is_digit(t[t.len() - 1]) || t[t.len() - 1] == '-');
    text::lemma_trimmed_is(t, 0, t.len() as int);
    assert(t.subrange(0, t.len() as int) =~= t);
    assert forall|j: int| 0 <= j < a.len() implies !seq!['-'].contains(#[trigger] t[j]) by {
        assert(t[j] == a[j]);
        assert(text::is_digit(a[j]));
    }
    if run.0 == run.1 {
        text::lemma_find_is(t, seq!['-'], t.len());
    } else {
        assert(t[a.len() as int] == '-');
        assert(seq!['-'][0] == '-');
        text::lemma_find_is(t, seq!['-'], a.len());
        assert(t.take(a.len() as int) =~= a);
        assert(t.skip(a.len() as int + 1) =~= b);
    }
}

/// A list of runs splits into the texts of the runs.
proof fn lemma_split_list(rs: Seq<(int, int)>)
    requires
        rs.len() > 0,
        forall|i: int| 0 <= i < rs.len() ==> 0 <= (#[trigger] rs[i]).0 <= rs[i].1 < CPU_SETSIZE,
    ensures
        text::split_on(list_text(rs), separators()) == rs.map_values(|r: (int, int)| run_text(r)),
    decreases rs.len(),
{
    let last = rs.last();
    assert(last == rs[rs.len() - 1]);
    lemma_run_text(last);
    let t = run_text(last);
    text::lemma_find_is(t, separators(), t.len());
    assert(text::split_on(t, separators()) == seq![t]);
    if rs.len() == 1 {
        assert(text::split_on(list_text(rs), separators()) =~= rs.map_values(
            |r: (int, int)| run_text(r),
        ));
    } else {
        let init = rs.drop_last();
        lemma_split_list(init);
        assert(separators()[0] == ',');
        lemma_split_join(list_text(init), ',', t, separators());
        assert(text::split_on(list_text(rs), separators()) =~= rs.map_values(
            |r: (int, int)| run_text(r),
        ));
    }
}

/// Reading back what [`CpuSet::to_range_string`] writes gives the set that it was
/// written from: for every set, text and set stand for each other.
pub proof fn law_range_text_round_trip(s: CpuSet)
    ensures
        named_cpus(range_text(s@)) == s@,
{
    let n = CPU_SETSIZE as nat;
    let r = runs(s@, n);
    let items = text::split_on(range_text(s@), separators());
    lemma_runs_bounds(s@, n);
    if r.len() > 0 {
        lemma_split_list(r);
    }
    assert forall|c: int| 0 <= c < CPU_SETSIZE implies items_name(items, c) == s@.contains(c) by {
        lemma_runs_cover(s@, n, c);
        if r.len() == 0 {
            assert(items =~= seq![Seq::<char>::empty()]);
            assert(!item_names(items[0], c));
        } else {
            assert forall|i: int| 0 <= i < r.len() implies item_names(#[trigger] items[i], c) == (
            r[i].0 <= c <= r[i].1) by {
                assert(items[i] == run_text(r[i]));
                lemma_run_text(r[i]);
            }
            if s@.contains(c) {
                let i = choose|i: int| 0 <= i < r.len() && (#[trigger] r[i]).0 <= c <= r[i].1;
                assert(item_names(items[i], c));
            }
            if items_name(items, c) {
                let i = choose|i: int| 0 <= i < items.len() && item_names(#[trigger] items[i], c);
                assert(r[i].0 <= c <= r[i].1);
            }
        }
    }
    assert(named_cpus(range_text(s@)) =~= s@);
}

/// Different sets have different texts, so a text can stand for its set.
pub proof fn law_range_text_is_injective(a: CpuSet, b: CpuSet)
    ensures
        range_text(a@) == range_text(b@) <==> a == b,
{
    law_range_text_round_trip(a);
    law_range_text_round_trip(b);
    law_equal_masks_are_equal_sets(a, b);
}

/// Lists add up: what two lists name together is what they name when written as
/// one, with any separator between them.
pub proof fn law_lists_add_up(x: Seq<char>, sep: char, y: Seq<char>)
    requires
        separators().contains(sep),
    ensures
        named_cpus(x + seq![sep] + y) == named_cpus(x).union(named_cpus(y)),
{
    lemma_split_join(x, sep, y, separators());
    let p = text::split_on(x, separators());
    let q = text::split_on(y, separators());
    let all = text::split_on(x + seq![sep] + y, separators());
    assert forall|c: int| items_name(all, c) == (items_name(p, c) || items_name(q, c)) by {
        if items_name(all, c) {
            let i = choose|i: int| 0 <= i < all.len() && item_names(#[trigger] all[i], c);
            if i < p.len() {
                assert(item_names(p[i], c));
            } else {
                assert(item_names(q[i - p.len()], c));
            }
        }
        if items_name(p, c) {
            let i = choose|i: int| 0 <= i < p.len() && item_names(#[trigger] p[i], c);
            assert(all[i] == p[i]);
        }
        if items_name(q, c) {
            let i = choose|i: int| 0 <= i < q.len() && item_names(#[trigger] q[i], c);
            assert(all[p.len() + i] == q[i]);
        }
    }
    assert(named_cpus(x + seq![sep] + y) =~= named_cpus(x).union(named_cpus(y)));
}

/// A CPU is read from a list exactly where the list names it and, with a set of
/// present CPUs given, that set holds it. So the present CPUs never add one, and make
/// no difference where they hold all that the list names.
pub proof fn law_present_cpus_only_leave_out(text: Seq<char>, present: CpuSet)
    ensures
        forall|c: int|
            named_present(text, Some(&present)).contains(c) <==> named_present(text, None).contains(
                c,
            ) && present@.contains(c),
        named_present(text, None).subset_of(present@) ==> named_present(text, Some(&present))
            == named_present(text, None),
        forall|c: int| named_present(text, None).contains(c) <==> named_cpus(text).contains(c),
{
    if named_present(text, None).subset_of(present@) {
        assert(named_present(text, Some(&present)) =~= named_present(text, None));
    }
}

/// A list of one item names what the item names.
proof fn lemma_one_item(item: Seq<char>, c: int)
    requires
        forall|i: int| 0 <= i < item.len() ==> !separators().contains(#[trigger] item[i]),
    ensures
        named_cpus(item).contains(c) <==> 0 <= c < CPU_SETSIZE && item_names(item, c),
{
    text::lemma_find_is(item, separators(), item.len());
    let items = text::split_on(item, separators());
    assert(items == seq![item]);
    assert(items[0] == item);
    if item_names(item, c) {
        assert(item_names(items[0], c));
    }
}

/// Digits are neither separators nor white space nor hyphens.
proof fn lemma_digits_are_plain(s: Seq<char>)
    requires
        text::all_digits(s),
    ensures
        forall|i: int|
            0 <= i < s.len() ==> !separators().contains(#[trigger] s[i]) && s[i] != '-'
                && !text::is_space(s[i]),
{
    assert forall|i: int| 0 <= i < s.len() implies !separators().contains(#[trigger] s[i]) && s[i]
        != '-' && !text::is_space(s[i]) by {
        assert(text::is_digit(s[i]));
    }
}

/// A number names that CPU, and two numbers with a hyphen between them name both and
/// every CPU between them, whichever is the larger. CPUs that no mask can hold are
/// left out.
pub proof fn law_ranges_name_all_between(a: nat, b: nat)
    requires
        a < usize::MAX,
        b <= usize::MAX,
    ensures
        forall|c: int|
            named_cpus(text::decimal_text(a)).contains(c) <==> c == a && c < 1024,
        forall|c: int|
            named_cpus(
                text::decimal_text(a) + seq!['-'] + text::decimal_text(b),
            ).contains(c) <==> 0 <= c < 1024 && (a <= c <= b || b <= c <= a),
{
    let x = text::decimal_text(a);
    let y = text::decimal_text(b);
    let r = x + seq!['-'] + y;
    text::lemma_decimal_round_trip(a);
    text::lemma_decimal_round_trip(b);
    lemma_digits_are_plain(x);
    lemma_digits_are_plain(y);
    assert forall|i: int| 0 <= i < r.len() implies !separators().contains(#[trigger] r[i])
        && !text::is_space(r[i]) by {
        if i < x.len() {
            assert(r[i] == x[i]);
        } else if i > x.len() {
            assert(r[i] == y[i - x.len() - 1]);
        } else {
            assert(r[i] == '-');
        }
    }
    text::lemma_trimmed_is(x, 0, x.len() as int);
    assert(x.subrange(0, x.len() as int) =~= x);
    text::lemma_trimmed_is(r, 0, r.len() as int);
    assert(r.subrange(0, r.len() as int) =~= r);
    let dash = seq!['-'];
    assert(dash[0] == '-');
    assert forall|j: int| 0 <= j < x.len() implies !dash.contains(#[trigger] x[j]) by {
        assert(x[j] != '-');
    }
    text::lemma_find_is(x, dash, x.len());
    assert forall|j: int| 0 <= j < x.len() implies !dash.contains(#[trigger] r[j]) by {
        assert(r[j] == x[j]);
    }
    assert(r[x.len() as int] == '-');
    text::lemma_find_is(r, dash, x.len());
    assert(r.take(x.len() as int) =~= x);
    assert(r.skip(x.len() as int + 1) =~= y);
    assert forall|c: int| named_cpus(x).contains(c) <==> c == a && c < 1024 by {
        lemma_one_item(x, c);
    }
    assert forall|c: int|
        named_cpus(r).contains(c) <==> 0 <= c < 1024 && (a <= c <= b || b <= c <= a) by {
        lemma_one_item(r, c);
    }
}

/// White space around an item makes no difference.
pub proof fn law_items_may_be_spaced(front: Seq<char>, item: Seq<char>, back: Seq<char>, c: int)
    requires
        forall|i: int| 0 <= i < front.len() ==> text::is_space(#[trigger] front[i]),
        forall|i: int| 0 <= i < back.len() ==> text::is_space(#[trigger] back[i]),
        item.len() > 0,
        !text::is_space(item[0]),
        !text::is_space(item.last()),
        forall|i: int|
            0 <= i < (front + item + back).len() ==> !separators().contains(
                #[trigger] (front + item + back)[i],
            ),
    ensures
        named_cpus(front + item + back).contains(c) == named_cpus(item).contains(c),
{
    let s = front + item + back;
    assert forall|i: int| 0 <= i < item.len() implies !separators().contains(
        #[trigger] item[i],
    ) by {
        assert(s[front.len() + i] == item[i]);
    }
    lemma_one_item(s, c);
    lemma_one_item(item, c);
    text::law_trimming_takes_white_space_alone(front, item, back);
    text::lemma_trimmed_is(item, 0, item.len() as int);
    assert(item.subrange(0, item.len() as int) =~= item);
}

/// An item that is not a number up to its first hyphen, or its end, names no CPU, and
/// neither does an empty one.
pub proof fn law_other_items_name_nothing(item: Seq<char>, i: int)
    requires
        forall|j: int| 0 <= j < item.len() ==> !separators().contains(#[trigger] item[j]),
        item.len() > 0 ==> !text::is_space(item[0]) && !text::is_space(item.last()),
        item.len() > 0 ==> {
            &&& 0 <= i < item.len()
            &&& forall|j: int| 0 <= j < i ==> #[trigger] item[j] != '-'
            &&& !('0' <= item[i] && item[i] <= '9')
            &&& i > 0 ==> item[i] != '-'
            &&& i == 0 ==> item[i] != '+'
        },
    ensures
        named_cpus(item) == Set::<int>::empty(),
{
    text::lemma_trimmed_is(item, 0, item.len() as int);
    assert(item.subrange(0, item.len() as int) =~= item);
    let dash = seq!['-'];
    text::lemma_find(item, dash);
    let d = text::find(item, dash) as int;
    if item.len() > 0 {
        assert(dash[0] == '-');
        if d < item.len() {
            assert(item[d] == '-') by {
                assert(dash.contains(item[d]));
            }
            if d < i {
                assert(item[d] != '-');
            }
            let low = item.take(d);
            if low.len() > 0 {
                assert(d != i);
                assert(low[i] == item[i]);
                text::law_numbers_are_read_digit_by_digit(low, 0, usize::MAX as nat);
            } else {
                text::law_numbers_are_read_digit_by_digit(low, 0, usize::MAX as nat);
                assert(low =~= Seq::<char>::empty());
            }
        } else {
            text::law_numbers_are_read_digit_by_digit(item, 0, usize::MAX as nat);
        }
    } else {
        text::law_numbers_are_read_digit_by_digit(item, 0, usize::MAX as nat);
        assert(item =~= Seq::<char>::empty());
    }
    assert(item_range(item) is None);
    assert forall|c: int| !named_cpus(item).contains(c) by {
        lemma_one_item(item, c);
    }
    assert(named_cpus(item) =~= Set::<int>::empty());
}

/// A number and a hyphen with something behind it that is no number name that CPU
/// alone.
pub proof fn law_a_missing_end_is_the_start(a: nat, junk: Seq<char>, i: int)
    requires
        a < usize::MAX,
        forall|j: int|
            0 <= j < junk.len() ==> !separators().contains(#[trigger] junk[j]) && !text::is_space(
                junk[j],
            ),
        junk.len() > 0 ==> {
            &&& 0 <= i < junk.len()
            &&& !('0' <= junk[i] && junk[i] <= '9')
            &&& i == 0 ==> junk[i] != '+'
        },
    ensures
        named_cpus(text::decimal_text(a) + seq!['-'] + junk) == named_cpus(text::decimal_text(a)),
{
    let x = text::decimal_text(a);
    let r = x + seq!['-'] + junk;
    text::lemma_decimal_round_trip(a);
    lemma_digits_are_plain(x);
    assert forall|j: int| 0 <= j < r.len() implies !separators().contains(#[trigger] r[j])
        && !text::is_space(r[j]) by {
        if j < x.len() {
            assert(r[j] == x[j]);
        } else if j > x.len() {
            assert(r[j] == junk[j - x.len() - 1]);
        } else {
            assert(r[j] == '-');
        }
    }
    text::lemma_trimmed_is(r, 0, r.len() as int);
    assert(r.subrange(0, r.len() as int) =~= r);
    let dash = seq!['-'];
    assert(dash[0] == '-');
    assert forall|j: int| 0 <= j < x.len() implies !dash.contains(#[trigger] r[j]) by {
        assert(r[j] == x[j]);
    }
    assert(r[x.len() as int] == '-');
    text::lemma_find_is(r, dash, x.len());
    assert(r.take(x.len() as int) =~= x);
    assert(r.skip(x.len() as int + 1) =~= junk);
    text::law_numbers_are_read_digit_by_digit(junk, 0, usize::MAX as nat);
    if junk.len() == 0 {
        assert(junk =~= Seq::<char>::empty());
    }
    assert(item_range(r) == Some((a, a)));
    law_ranges_name_all_between(a, a);
    assert forall|c: int| named_cpus(r).contains(c) <==> named_cpus(x).contains(c) by {
        lemma_one_item(r, c);
    }
    assert(named_cpus(r) =~= named_cpus(x));
}

/// Runs depend on the CPUs below their bound alone.
proof fn lemma_runs_agree(s: Set<int>, t: Set<int>, n: nat)
    requires
        forall|c: int| 0 <= c < n ==> s.contains(c) == t.contains(c),
    ensures
        runs(s, n) == runs(t, n),
    decreases n,
{
    if n > 0 {
        lemma_runs_agree(s, t, (n - 1) as nat);
    }
}

/// The last CPU of every run is in the set.
proof fn lemma_runs_end_in_the_set(s: Set<int>, n: nat)
    ensures
        forall|i: int| 0 <= i < runs(s, n).len() ==> s.contains((#[trigger] runs(s, n)[i]).1),
    decreases n,
{
    if n > 0 {
        lemma_runs_end_in_the_set(s, (n - 1) as nat);
        let r = runs(s, (n - 1) as nat);
        let q = runs(s, n);
        assert forall|i: int| 0 <= i < q.len() implies s.contains((#[trigger] q[i]).1) by {
            if i < r.len() {
                assert(s.contains(r[i].1));
            }
        }
    }
}

/// The text of a set is written run by run. The empty set has no text. A run of CPUs
/// that lies behind all others, with a CPU missing before it, is written behind the
/// text of the others: after a comma, unless it is the only one; as its only CPU, or
/// as its first CPU, a hyphen and its last.
pub proof fn law_set_texts_grow_run_by_run(s: Set<int>, t: Set<int>, a: nat, b: nat)
    requires
        a <= b < 1024,
        forall|c: int| s.contains(c) ==> 0 <= c < a - 1,
        forall|c: int| t.contains(c) <==> s.contains(c) || a <= c <= b,
    ensures
        range_text(Set::empty()) == Seq::<char>::empty(),
        ({
            let run = if a == b {
                text::decimal_text(a)
            } else {
                text::decimal_text(a) + seq!['-'] + text::decimal_text(b)
            };
            range_text(t) == (if s == Set::<int>::empty() {
                run
            } else {
                range_text(s) + seq![','] + run
            })
        }),
{
    lemma_runs_gap(Set::empty(), 0, CPU_SETSIZE as nat);
    let r = runs(s, a);
    lemma_runs_agree(s, t, a);
    lemma_runs_end_in_the_set(s, a);
    if r.len() > 0 {
        assert(s.contains(r[r.len() - 1].1));
    }
    lemma_one_run(t, a, (b + 1) as nat);
    lemma_runs_gap(t, (b + 1) as nat, CPU_SETSIZE as nat);
    lemma_runs_gap(s, a, CPU_SETSIZE as nat);
    lemma_list_text_push(r, (a as int, b as int));
    if s == Set::<int>::empty() {
        lemma_runs_gap(s, 0, a);
        assert(list_text(r) + Seq::<char>::empty() + run_text((a as int, b as int)) =~= run_text(
            (a as int, b as int),
        ));
    } else {
        assert(!(s =~= Set::<int>::empty()));
        let c = choose|c: int| s.contains(c);
        lemma_runs_cover(s, a, c);
        assert(r.len() > 0);
    }
}

/// The runs up to the end of a last run.
proof fn lemma_one_run(t: Set<int>, a: nat, n: nat)
    requires
        a < n,
        forall|c: int| a <= c < n ==> t.contains(c),
        runs(t, a).len() > 0 ==> runs(t, a).last().1 < a - 1,
    ensures
        runs(t, n) == runs(t, a).push((a as int, n - 1)),
    decreases n,
{
    let r = runs(t, a);
    if n == a + 1 {
        assert(t.contains(n - 1));
    } else {
        lemma_one_run(t, a, (n - 1) as nat);
        let q = runs(t, (n - 1) as nat);
        assert(q.last() == (a as int, n - 2));
        assert(t.contains(n - 1));
        assert(q.drop_last() =~= r);
    }
}

/// Items are separated by commas, spaces and tabs, and by nothing else.
pub proof fn law_three_characters_separate(c: char)
    ensures
        separators().contains(c) <==> c == ',' || c == ' ' || c == '\t',
{
    let s = separators();
    assert(s[0] == ',' && s[1] == ' ' && s[2] == '\t');
}

/// Reading a list with a set of present CPUs gives exactly those of the CPUs that it
/// gives without, which are present; and all three ways of reading a list without such
/// a set give the same.
pub proof fn law_readings_of_one_list_agree(
    spec: &str,
    present: &CpuSet,
    limited: CpuSet,
    all: CpuSet,
    free: CpuSet,
    method: CpuSet,
)
    requires
        call_ensures(parse_cpu_ranges, (spec, Some(present)), limited),
        call_ensures(parse_cpu_ranges, (spec, None), all),
        call_ensures(from_range, (spec,), free),
        call_ensures(CpuSet::from_range, (spec,), method),
    ensures
        forall|c: int|
            limited@.contains(c) <==> all@.contains(c) && present@.contains(c),
        all@.subset_of(present@) ==> limited == all,
        forall|c: int| all@.contains(c) <==> named_cpus(spec@).contains(c),
        free == all,
        method == all,
{
    law_present_cpus_only_leave_out(spec@, *present);
    if all@.subset_of(present@) {
        law_equal_masks_are_equal_sets(limited, all);
    }
    law_equal_masks_are_equal_sets(free, all);
    law_equal_masks_are_equal_sets(method, all);
}

/// Writing a set and reading it back gives the set, whatever the set.
pub proof fn law_written_sets_read_back(set: &CpuSet, written: String, spec: &str, read: CpuSet)
    requires
        call_ensures(CpuSet::to_range_string, (set,), written),
        spec@ == written@,
        call_ensures(parse_cpu_ranges, (spec, None), read),
    ensures
        read == *set,
{
    law_range_text_round_trip(*set);
    law_equal_masks_are_equal_sets(read, *set);
}

/// The operations on sets, one CPU at a time. Adding a CPU adds that CPU, where a mask
/// can hold it, and no other. A union holds what either holds, an intersection what both
/// do. A set holds a CPU where it is asked for that CPU and says so.
pub proof fn law_operations_act_on_single_cpus(
    added: &mut CpuSet,
    cpu: usize,
    joined: &mut CpuSet,
    a: &CpuSet,
    b: &CpuSet,
    both: CpuSet,
    held: bool,
)
    requires
        call_ensures(CpuSet::set, (added, cpu), ()),
        call_ensures(CpuSet::or, (joined, b), ()),
        call_ensures(CpuSet::intersection, (a, b), both),
        call_ensures(CpuSet::is_set, (a, cpu), held),
    ensures
        forall|c: int|
            final(added)@.contains(c) <==> old(added)@.contains(c) || (c == cpu && c < 1024),
        forall|c: int| final(joined)@.contains(c) <==> old(joined)@.contains(c) || b@.contains(c),
        forall|c: int| both@.contains(c) <==> a@.contains(c) && b@.contains(c),
        held <==> a@.contains(cpu as int),
{
}

/// A set is empty exactly where it counts no CPU, and adding a CPU that it does not hold
/// makes it count one more.
pub proof fn law_counts_go_with_the_cpus(
    set: &CpuSet,
    n: usize,
    none: bool,
    grown: &mut CpuSet,
    cpu: usize,
    after: &CpuSet,
    m: usize,
)
    requires
        call_ensures(CpuSet::count, (set,), n),
        call_ensures(CpuSet::is_empty, (set,), none),
        *old(grown) == *set,
        call_ensures(CpuSet::set, (grown, cpu), ()),
        *final(grown) == *after,
        call_ensures(CpuSet::count, (after,), m),
    ensures
        none <==> n == 0,
        cpu < 1024 && !set@.contains(cpu as int) ==> m == n + 1,
        cpu >= 1024 || set@.contains(cpu as int) ==> m == n,
{
    if n == 0 {
        set@.lemma_len0_is_empty();
    }
    if cpu < 1024 && set@.contains(cpu as int) {
        assert(set@.insert(cpu as int) =~= set@);
    }
}

} // verus!
