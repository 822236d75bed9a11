//! Text primitives: trimming, splitting and decimal numbers over characters.
//!
//! Every function here comes with a specification over `Seq<char>`, so that the
//! parsers built on top of it can be stated over the text that they read.

use vstd::prelude::*;

verus! {

// ---------------------------------------------------------------------------
// Specifications
// ---------------------------------------------------------------------------

/// Whether `c` has the Unicode property `White_Space`.
pub open spec fn is_space(c: char) -> bool {
    let u = c as u32;
    ||| 0x09 <= u <= 0x0d
    ||| u == 0x20
    ||| u == 0x85
    ||| u == 0xa0
    ||| u == 0x1680
    ||| 0x2000 <= u <= 0x200a
    ||| u == 0x2028
    ||| u == 0x2029
    ||| u == 0x202f
    ||| u == 0x205f
    ||| u == 0x3000
}

/// `s` without the white space at both of its ends.
pub open spec fn trimmed(s: Seq<char>) -> Seq<char>
    decreases s.len(),
{
    if s.len() == 0 {
        s
    } else if is_space(s[0]) {
        trimmed(s.drop_first())
    } else if is_space(s.last()) {
        trimmed(s.drop_last())
    } else {
        s
    }
}

/// Position of the first character of `s` that is one of `seps`, or the length
/// of `s` where there is none.
pub open spec fn find(s: Seq<char>, seps: Seq<char>) -> nat
    decreases s.len(),
{
    if s.len() == 0 || seps.contains(s[0]) {
        0
    } else {
        1 + find(s.drop_first(), seps)
    }
}

/// The pieces of `s` between the separators `seps`: always one more than there
/// are separators in `s`, and empty where two separators meet.
pub open spec fn split_on(s: Seq<char>, seps: Seq<char>) -> Seq<Seq<char>>
    decreases s.len(),
{
    let i = find(s, seps);
    if i < s.len() {
        seq![s.take(i as int)] + split_on(s.skip(i as int + 1), seps)
    } else {
        seq![s]
    }
}

/// `s` without one final carriage return.
pub open spec fn without_cr(s: Seq<char>) -> Seq<char> {
    if s.len() > 0 && s.last() == '\r' {
        s.drop_last()
    } else {
        s
    }
}

/// The lines of `s`. A line ends in a line feed, or in a carriage return and a
/// line feed; the last one may go without.
pub open spec fn lines_of(s: Seq<char>) -> Seq<Seq<char>>
    decreases s.len(),
{
    let i = find(s, seq!['\n']);
    if s.len() == 0 {
        seq![]
    } else if i < s.len() {
        seq![without_cr(s.take(i as int))] + lines_of(s.skip(i as int + 1))
    } else {
        seq![s]
    }
}

/// Number of characters before the first white space of `s`.
pub open spec fn word_len(s: Seq<char>) -> nat
    decreases s.len(),
{
    if s.len() == 0 || is_space(s[0]) {
        0
    } else {
        1 + word_len(s.drop_first())
    }
}

/// The maximal runs of `s` that hold no white space, from left to right.
pub open spec fn words_of(s: Seq<char>) -> Seq<Seq<char>>
    decreases s.len(),
{
    if s.len() == 0 {
        seq![]
    } else if is_space(s[0]) {
        words_of(s.drop_first())
    } else {
        let n = 1 + word_len(s.drop_first());
        proof {
            lemma_word_len(s.drop_first());
        }
        seq![s.take(n as int)] + words_of(s.skip(n as int))
    }
}

/// Whether `s` starts with `p`.
pub open spec fn has_prefix(s: Seq<char>, p: Seq<char>) -> bool {
    p.len() <= s.len() && s.take(p.len() as int) == p
}

/// Whether `s` ends in `p`.
pub open spec fn has_suffix(s: Seq<char>, p: Seq<char>) -> bool {
    p.len() <= s.len() && s.skip(s.len() - p.len()) == p
}

/// Whether `c` is one of `0` to `9`.
pub open spec fn is_digit(c: char) -> bool {
    '0' <= c && c <= '9'
}

/// Whether `s` is made of digits alone.
pub open spec fn all_digits(s: Seq<char>) -> bool {
    forall|i: int| 0 <= i < s.len() ==> is_digit(#[trigger] s[i])
}

/// The number that the digits of `s` write in base ten.
pub open spec fn decimal_value(s: Seq<char>) -> nat
    decreases s.len(),
{
    if s.len() == 0 {
        0
    } else {
        10 * decimal_value(s.drop_last()) + ((s.last() as u32 - '0' as u32) as nat)
    }
}

/// The unsigned number that `s` writes: digits, with one `+` allowed in front.
/// `None` where `s` is anything else, or where the number is above `max`.
pub open spec fn parsed_unsigned(s: Seq<char>, max: nat) -> Option<nat> {
    let digits = if s.len() > 0 && s[0] == '+' {
        s.drop_first()
    } else {
        s
    };
    if digits.len() > 0 && all_digits(digits) && decimal_value(digits) <= max {
        Some(decimal_value(digits))
    } else {
        None
    }
}

/// The `i32` that `s` writes: digits, with one `+` or `-` allowed in front.
pub open spec fn parsed_i32(s: Seq<char>) -> Option<int> {
    if s.len() > 0 && s[0] == '-' {
        let digits = s.drop_first();
        if digits.len() > 0 && all_digits(digits) && decimal_value(digits) <= 0x8000_0000 {
            Some(-(decimal_value(digits) as int))
        } else {
            None
        }
    } else {
        match parsed_unsigned(s, 0x7fff_ffff) {
            Some(n) => Some(n as int),
            None => None,
        }
    }
}

/// The digit for `d`.
pub open spec fn digit_char(d: nat) -> char {
    (('0' as u32 + d) as u32) as char
}

/// `n` in base ten, without leading zeros.
pub open spec fn decimal_text(n: nat) -> Seq<char>
    decreases n,
{
    if n < 10 {
        seq![digit_char(n)]
    } else {
        decimal_text(n / 10).push(digit_char(n % 10))
    }
}

/// `n` in base ten, with a hyphen in front where it is negative.
pub open spec fn signed_text(n: int) -> Seq<char> {
    if n < 0 {
        "-"@ + decimal_text((-n) as nat)
    } else {
        decimal_text(n as nat)
    }
}

/// What a list of string slices holds.
pub open spec fn views(parts: Seq<&str>) -> Seq<Seq<char>> {
    parts.map_values(|p: &str| p@)
}

/// What a list of strings holds.
pub open spec fn string_views(parts: Seq<String>) -> Seq<Seq<char>> {
    parts.map_values(|p: String| p@)
}

// ---------------------------------------------------------------------------
// Facts about the specifications
// ---------------------------------------------------------------------------

pub proof fn lemma_find(s: Seq<char>, seps: Seq<char>)
    ensures
        find(s, seps) <= s.len(),
        forall|j: int| 0 <= j < find(s, seps) ==> !seps.contains(#[trigger] s[j]),
        find(s, seps) < s.len() ==> seps.contains(s[find(s, seps) as int]),
    decreases s.len(),
{
    if s.len() > 0 && !seps.contains(s[0]) {
        let t = s.drop_first();
        lemma_find(t, seps);
        assert forall|j: int| 0 <= j < find(s, seps) implies !seps.contains(#[trigger] s[j]) by {
            if j > 0 {
                assert(s[j] == t[j - 1]);
            }
        }
    }
}

pub proof fn lemma_find_is(s: Seq<char>, seps: Seq<char>, k: nat)
    requires
        k <= s.len(),
        forall|j: int| 0 <= j < k ==> !seps.contains(#[trigger] s[j]),
        k < s.len() ==> seps.contains(s[k as int]),
    ensures
        find(s, seps) == k,
{
    lemma_find(s, seps);
    let f = find(s, seps);
    if f < k {
        assert(!seps.contains(s[f as int]));
    } else if k < f {
        assert(!seps.contains(s[k as int]));
    }
}

pub proof fn lemma_word_len(s: Seq<char>)
    ensures
        word_len(s) <= s.len(),
        forall|j: int| 0 <= j < word_len(s) ==> !is_space(#[trigger] s[j]),
        word_len(s) < s.len() ==> is_space(s[word_len(s) as int]),
    decreases s.len(),
{
    if s.len() > 0 && !is_space(s[0]) {
        let t = s.drop_first();
        lemma_word_len(t);
        assert forall|j: int| 0 <= j < word_len(s) implies !is_space(#[trigger] s[j]) by {
            if j > 0 {
                assert(s[j] == t[j - 1]);
            }
        }
    }
}

/// A run of `k` characters without white space, with white space or the end
/// behind it, is what `word_len` measures.
proof fn lemma_word_len_is(s: Seq<char>, k: nat)
    requires
        k <= s.len(),
        forall|j: int| 0 <= j < k ==> !is_space(#[trigger] s[j]),
        k < s.len() ==> is_space(s[k as int]),
    ensures
        word_len(s) == k,
{
    lemma_word_len(s);
    let f = word_len(s);
    if f < k {
        assert(!is_space(s[f as int]));
    } else if k < f {
        assert(!is_space(s[k as int]));
    }
}

/// A text that neither starts nor ends in white space is its own trimmed form,
/// and so is the part of any text that is left between white space.
pub proof fn lemma_trimmed_is(s: Seq<char>, lo: int, hi: int)
    requires
        0 <= lo <= hi <= s.len(),
        forall|j: int| 0 <= j < lo ==> is_space(#[trigger] s[j]),
        forall|j: int| hi <= j < s.len() ==> is_space(#[trigger] s[j]),
        lo < hi ==> !is_space(s[lo]) && !is_space(s[hi - 1]),
    ensures
        trimmed(s) == s.subrange(lo, hi),
    decreases s.len(),
{
    if s.len() == 0 {
        assert(s.subrange(lo, hi) =~= s);
    } else if lo > 0 {
        let t = s.drop_first();
        assert(is_space(s[0]));
        assert forall|j: int| 0 <= j < lo - 1 implies is_space(#[trigger] t[j]) by {
            assert(t[j] == s[j + 1]);
        }
        assert forall|j: int| hi - 1 <= j < t.len() implies is_space(#[trigger] t[j]) by {
            assert(t[j] == s[j + 1]);
        }
        lemma_trimmed_is(t, lo - 1, hi - 1);
        assert(t.subrange(lo - 1, hi - 1) =~= s.subrange(lo, hi));
    } else if hi < s.len() {
        if lo == hi {
            // all of it is white space
            let t = s.drop_first();
            assert(is_space(s[0]));
            assert forall|j: int| 0 <= j < t.len() implies is_space(#[trigger] t[j]) by {
                assert(t[j] == s[j + 1]);
            }
            lemma_trimmed_is(t, 0, 0);
            assert(t.subrange(0, 0) =~= s.subrange(lo, hi));
        } else {
            let t = s.drop_last();
            assert(is_space(s[s.len() - 1]));
            lemma_trimmed_is(t, lo, hi);
            assert(t.subrange(lo, hi) =~= s.subrange(lo, hi));
        }
    } else {
        assert(s.subrange(lo, hi) =~= s);
    }
}

/// Digits in front of others never make the number smaller.
proof fn lemma_decimal_prefix(s: Seq<char>, k: int)
    requires
        0 <= k <= s.len(),
    ensures
        decimal_value(s.take(k)) <= decimal_value(s),
    decreases s.len() - k,
{
    if k == s.len() {
        assert(s.take(k) =~= s);
    } else {
        lemma_decimal_prefix(s, k + 1);
        assert(s.take(k + 1).drop_last() =~= s.take(k));
    }
}

/// Writing a number and reading it back gives the number.
pub proof fn lemma_decimal_round_trip(n: nat)
    ensures
        decimal_text(n).len() > 0,
        all_digits(decimal_text(n)),
        decimal_value(decimal_text(n)) == n,
        forall|max: nat| n <= max ==> #[trigger] parsed_unsigned(decimal_text(n), max) == Some(n),
    decreases n,
{
    let t = decimal_text(n);
    if n < 10 {
        assert(t.drop_last() =~= seq![]);
        assert(decimal_value(t.drop_last()) == 0);
        assert(t.last() == digit_char(n));
    } else {
        lemma_decimal_round_trip(n / 10);
        assert(t.drop_last() =~= decimal_text(n / 10));
        assert(t.last() == digit_char(n % 10));
        assert forall|i: int| 0 <= i < t.len() implies is_digit(#[trigger] t[i]) by {
            if i < t.len() - 1 {
                assert(t[i] == decimal_text(n / 10)[i]);
            }
        }
    }
    assert(is_digit(t[0]));
}

// ---------------------------------------------------------------------------
// Laws
// ---------------------------------------------------------------------------

/// Trimming takes away the white space around a text, and nothing else: a text that
/// neither starts nor ends in white space is what is left of it with white space
/// around it.
pub proof fn law_trimming_takes_white_space_alone(
    front: Seq<char>,
    core: Seq<char>,
    back: Seq<char>,
)
    requires
        forall|i: int| 0 <= i < front.len() ==> is_space(#[trigger] front[i]),
        forall|i: int| 0 <= i < back.len() ==> is_space(#[trigger] back[i]),
        core.len() > 0 ==> !is_space(core[0]) && !is_space(core.last()),
    ensures
        trimmed(front + core + back) == core,
{
    let s = front + core + back;
    let lo = front.len() as int;
    let hi = lo + core.len();
    assert forall|j: int| 0 <= j < lo implies is_space(#[trigger] s[j]) by {
        assert(s[j] == front[j]);
    }
    assert forall|j: int| hi <= j < s.len() implies is_space(#[trigger] s[j]) by {
        assert(s[j] == back[j - hi]);
    }
    if lo < hi {
        assert(s[lo] == core[0]);
        assert(s[hi - 1] == core.last());
    }
    lemma_trimmed_is(s, lo, hi);
    assert(s.subrange(lo, hi) =~= core);
}

/// A text without a separator is one piece. A separator between two texts splits them
/// apart, and what each of them splits into is left as it is.
pub proof fn law_separators_split(x: Seq<char>, c: char, y: Seq<char>, seps: Seq<char>)
    requires
        seps.contains(c),
    ensures
        split_on(x + seq![c] + y, seps) == split_on(x, seps) + split_on(y, seps),
        (forall|i: int| 0 <= i < x.len() ==> !seps.contains(#[trigger] x[i])) ==> split_on(x, seps)
            == seq![x],
    decreases x.len(),
{
    let s = x + seq![c] + y;
    lemma_find(x, seps);
    let i = find(x, seps);
    assert forall|j: int| 0 <= j < i implies !seps.contains(#[trigger] s[j]) by {
        assert(s[j] == x[j]);
    }
    if i < x.len() {
        assert(s[i as int] == x[i as int]);
    } else {
        assert(s[i as int] == c);
    }
    lemma_find_is(s, seps, i);
    assert(s.take(i as int) =~= x.take(i as int));
    if i < x.len() {
        let rest = x.skip(i as int + 1);
        law_separators_split(rest, c, y, seps);
        assert(s.skip(i as int + 1) =~= rest + seq![c] + y);
    } else {
        assert(x.take(i as int) =~= x);
        assert(s.skip(i as int + 1) =~= y);
    }
    assert(split_on(s, seps) =~= split_on(x, seps) + split_on(y, seps));
}

/// A line feed ends a line, and a carriage return right before it goes with it; what
/// follows is split on its own. A last line needs no line feed, and keeps a carriage
/// return that none follows. An empty text has no lines.
pub proof fn law_line_feeds_end_lines(line: Seq<char>, rest: Seq<char>)
    requires
        forall|i: int| 0 <= i < line.len() ==> #[trigger] line[i] != '\n',
    ensures
        lines_of(line + seq!['\n'] + rest) == seq![
            if line.len() > 0 && line.last() == '\r' {
                line.drop_last()
            } else {
                line
            },
        ] + lines_of(rest),
        line.len() > 0 ==> lines_of(line) == seq![line],
        lines_of(Seq::empty()) == Seq::<Seq<char>>::empty(),
{
    let nl = seq!['\n'];
    let s = line + nl + rest;
    assert forall|j: int| 0 <= j < line.len() implies !nl.contains(#[trigger] s[j]) by {
        assert(s[j] == line[j]);
    }
    assert(nl[0] == '\n');
    assert(s[line.len() as int] == '\n');
    lemma_find_is(s, nl, line.len());
    assert(s.take(line.len() as int) =~= line);
    assert(s.skip(line.len() as int + 1) =~= rest);
    assert forall|j: int| 0 <= j < line.len() implies !nl.contains(#[trigger] line[j]) by {
        assert(line[j] != '\n');
    }
    lemma_find_is(line, nl, line.len());
}

/// White space in front of a text adds no word.
proof fn lemma_leading_space(front: Seq<char>, rest: Seq<char>)
    requires
        forall|i: int| 0 <= i < front.len() ==> is_space(#[trigger] front[i]),
    ensures
        words_of(front + rest) == words_of(rest),
    decreases front.len(),
{
    if front.len() == 0 {
        assert(front + rest =~= rest);
    } else {
        let t = front.drop_first();
        assert forall|i: int| 0 <= i < t.len() implies is_space(#[trigger] t[i]) by {
            assert(t[i] == front[i + 1]);
        }
        lemma_leading_space(t, rest);
        assert((front + rest)[0] == front[0]);
        assert((front + rest).drop_first() =~= t + rest);
    }
}

/// A run of characters between white space, or between white space and an end, is a
/// word, and what follows it is split on its own. White space alone has no words.
pub proof fn law_white_space_separates_words(front: Seq<char>, word: Seq<char>, rest: Seq<char>)
    requires
        forall|i: int| 0 <= i < front.len() ==> is_space(#[trigger] front[i]),
        forall|i: int| 0 <= i < word.len() ==> !is_space(#[trigger] word[i]),
        word.len() > 0,
        rest.len() == 0 || is_space(rest[0]),
    ensures
        words_of(front + word + rest) == seq![word] + words_of(rest),
        words_of(front) == Seq::<Seq<char>>::empty(),
{
    let s = word + rest;
    lemma_leading_space(front, s);
    assert(front + s =~= front + word + rest);
    lemma_leading_space(front, Seq::empty());
    assert(front + Seq::<char>::empty() =~= front);
    let t = s.drop_first();
    let n = (word.len() - 1) as nat;
    assert(s[0] == word[0]);
    assert forall|j: int| 0 <= j < n implies !is_space(#[trigger] t[j]) by {
        assert(t[j] == word[j + 1]);
    }
    if n < t.len() {
        assert(t[n as int] == rest[0]);
    }
    lemma_word_len_is(t, n);
    assert(s.take(word.len() as int) =~= word);
    assert(s.skip(word.len() as int) =~= rest);
}

/// White space between two texts keeps their words apart: together they have the
/// words of the one and then those of the other.
pub proof fn law_words_add_up(x: Seq<char>, c: char, y: Seq<char>)
    requires
        is_space(c),
    ensures
        words_of(x + seq![c] + y) == words_of(x) + words_of(y),
    decreases x.len(),
{
    let s = x + seq![c] + y;
    if x.len() == 0 {
        assert(s[0] == c);
        assert(s.drop_first() =~= y);
        assert(words_of(x) + words_of(y) =~= words_of(y));
    } else if is_space(x[0]) {
        assert(s[0] == x[0]);
        assert(s.drop_first() =~= x.drop_first() + seq![c] + y);
        law_words_add_up(x.drop_first(), c, y);
    } else {
        let n = 1 + word_len(x.drop_first());
        lemma_word_len(x.drop_first());
        let word = x.take(n as int);
        let rest = x.skip(n as int);
        assert forall|i: int| 0 <= i < word.len() implies !is_space(#[trigger] word[i]) by {
            if i > 0 {
                assert(word[i] == x.drop_first()[i - 1]);
            }
        }
        if rest.len() > 0 {
            assert(rest[0] == x.drop_first()[n - 1]);
        }
        law_white_space_separates_words(Seq::empty(), word, rest);
        assert(Seq::<char>::empty() + word + rest =~= x);
        let tail = rest + seq![c] + y;
        assert(tail[0] == (if rest.len() > 0 {
            rest[0]
        } else {
            c
        }));
        law_white_space_separates_words(Seq::empty(), word, tail);
        assert(Seq::<char>::empty() + word + tail =~= s);
        law_words_add_up(rest, c, y);
        assert(words_of(s) =~= words_of(x) + words_of(y));
    }
}

/// How unsigned numbers are read: one more digit makes ten times the number and the
/// digit; a single digit is itself; one `+` in front makes no difference; anything
/// else than a digit makes the text no number, and so does the lack of digits. A
/// number above `max` is not read.
pub proof fn law_numbers_are_read_digit_by_digit(s: Seq<char>, d: nat, max: nat)
    requires
        d < 10,
    ensures
        ({
            let c = (('0' as u32 + d) as u32) as char;
            let big = s.push(c);
            &&& parsed_unsigned(seq![c], max) == (if d <= max {
                Some(d)
            } else {
                None
            })
            &&& forall|m: nat| #[trigger]
                parsed_unsigned(s, m) matches Some(n) ==> parsed_unsigned(big, max) == (if 10 * n
                    + d <= max {
                    Some(10 * n + d)
                } else {
                    None
                })
        }),
        parsed_unsigned(Seq::empty(), max) is None,
        parsed_unsigned(seq!['+'], max) is None,
        s.len() > 0 && s[0] != '+' ==> parsed_unsigned(seq!['+'] + s, max) == parsed_unsigned(
            s,
            max,
        ),
        (exists|i: int|
            0 <= i < s.len() && !('0' <= (#[trigger] s[i]) && s[i] <= '9') && (i > 0 || s[i]
                != '+')) ==> parsed_unsigned(s, max) is None,
{
    let c = (('0' as u32 + d) as u32) as char;
    let big = s.push(c);
    let one = seq![c];
    assert(is_digit(c));
    assert(one.drop_last() =~= Seq::<char>::empty());
    assert(decimal_value(one.drop_last()) == 0);
    assert(decimal_value(one) == d);
    assert(one[0] == c);
    assert forall|m: nat| #[trigger] parsed_unsigned(s, m) is Some implies parsed_unsigned(big, max)
        == (if 10 * parsed_unsigned(s, m)->0 + d <= max {
        Some(10 * parsed_unsigned(s, m)->0 + d)
    } else {
        None
    }) by {
        let digits = if s[0] == '+' {
            s.drop_first()
        } else {
            s
        };
        let more = if s[0] == '+' {
            big.drop_first()
        } else {
            big
        };
        assert(big[0] == s[0]);
        assert(more =~= digits.push(c));
        assert(more.drop_last() =~= digits);
        assert forall|i: int| 0 <= i < more.len() implies is_digit(#[trigger] more[i]) by {
            if i < digits.len() {
                assert(more[i] == digits[i]);
            }
        }
        assert(decimal_value(more) == 10 * decimal_value(digits) + d);
    }
    assert(seq!['+'].drop_first() =~= Seq::<char>::empty());
    if s.len() > 0 && s[0] != '+' {
        assert((seq!['+'] + s).drop_first() =~= s);
    }
    if exists|i: int|
        0 <= i < s.len() && !('0' <= (#[trigger] s[i]) && s[i] <= '9') && (i > 0 || s[i] != '+') {
        let i = choose|i: int|
            0 <= i < s.len() && !('0' <= (#[trigger] s[i]) && s[i] <= '9') && (i > 0 || s[i]
                != '+');
        if s[0] == '+' {
            assert(s.drop_first()[i - 1] == s[i]);
            assert(!is_digit(s.drop_first()[i - 1]));
        } else {
            assert(!is_digit(s[i]));
        }
    }
}

/// A signed number is an unsigned one, or a hyphen and digits; it fits 32 bits.
pub proof fn law_signed_numbers_have_one_hyphen(s: Seq<char>)
    ensures
        s.len() == 0 || s[0] != '-' ==> parsed_i32(s) == (match parsed_unsigned(s, 0x7fff_ffff) {
            Some(n) => Some(n as int),
            None => None,
        }),
        s.len() > 0 && s[0] != '+' ==> parsed_i32(seq!['-'] + s) == (match parsed_unsigned(
            s,
            0x8000_0000,
        ) {
            Some(n) => Some(-(n as int)),
            None => None,
        }),
        s.len() == 0 || s[0] == '+' ==> parsed_i32(seq!['-'] + s) is None,
{
    assert((seq!['-'] + s).drop_first() =~= s);
    if s.len() > 0 && s[0] == '+' {
        assert(!is_digit(s[0]));
    }
}

/// Numbers are written digit by digit, without zeros in front.
pub proof fn law_numbers_are_written_digit_by_digit(q: nat, d: nat)
    requires
        d < 10,
    ensures
        decimal_text(d) == seq![(('0' as u32 + d) as u32) as char],
        q > 0 ==> decimal_text(10 * q + d) == decimal_text(q).push(
            (('0' as u32 + d) as u32) as char,
        ),
        q > 0 ==> decimal_text(q)[0] != '0',
    decreases q,
{
    if q > 0 {
        assert((10 * q + d) / 10 == q && (10 * q + d) % 10 == d);
        if q >= 10 {
            law_numbers_are_written_digit_by_digit(q / 10, q % 10);
            lemma_decimal_round_trip(q / 10);
            assert(decimal_text(q)[0] == decimal_text(q / 10)[0]);
        }
    }
}

/// A text starts with another exactly where the other is its front part, and ends in
/// it exactly where the other is its end part.
pub proof fn law_prefixes_and_suffixes_are_parts(part: Seq<char>, other: Seq<char>, s: Seq<char>)
    ensures
        has_prefix(part + other, part),
        has_suffix(other + part, part),
        has_prefix(s, part) ==> s == part + s.skip(part.len() as int),
        has_suffix(s, part) ==> s == s.take(s.len() - part.len()) + part,
{
    assert((part + other).take(part.len() as int) =~= part);
    assert((other + part).skip(other.len() as int) =~= part);
    if has_prefix(s, part) {
        assert(s =~= part + s.skip(part.len() as int));
    }
    if has_suffix(s, part) {
        assert(s =~= s.take(s.len() - part.len()) + part);
    }
}

/// Writing a signed number and reading it back gives the number.
pub proof fn law_signed_numbers_read_back(n: i32)
    ensures
        signed_text(n as int).len() > 0,
        parsed_i32(signed_text(n as int)) == Some(n as int),
{
    reveal_strlit("-");
    if n < 0 {
        let d = decimal_text((-n) as nat);
        lemma_decimal_round_trip((-n) as nat);
        assert(signed_text(n as int).drop_first() =~= d);
    } else {
        let d = decimal_text(n as nat);
        lemma_decimal_round_trip(n as nat);
        assert(is_digit(d[0]));
    }
}

// ---------------------------------------------------------------------------
// Executable functions
// ---------------------------------------------------------------------------

/// The characters of `s`.
pub fn chars_of(s: &str) -> (out: Vec<char>)
    ensures
        out@ == s@,
{
    let mut out: Vec<char> = Vec::new();
    for c in it: s.chars()
        invariant
            it.seq() == s@,
            out@ == s@.take(it.index() as int),
    {
        out.push(c);
    }
    assert(s@.take(s@.len() as int) =~= s@);
    out
}

/// Whether `c` is white space.
pub fn is_whitespace(c: char) -> (b: bool)
    ensures
        b == is_space(c),
{
    let u: u32 = c as u32;
    (0x09 <= u && u <= 0x0d) || u == 0x20 || u == 0x85 || u == 0xa0 || u == 0x1680 || (0x2000 <= u
        && u <= 0x200a) || u == 0x2028 || u == 0x2029 || u == 0x202f || u == 0x205f || u == 0x3000
}

/// Whether `c` is one of `seps`.
fn is_one_of(c: char, seps: &[char]) -> (b: bool)
    ensures
        b == seps@.contains(c),
{
    for i in 0..seps.len()
        invariant
            forall|j: int| 0 <= j < i ==> seps@[j] != c,
    {
        if seps[i] == c {
            return true;
        }
    }
    false
}

/// Whether two texts are the same.
pub fn same_text(a: &str, b: &str) -> (r: bool)
    ensures
        r == (a@ == b@),
{
    let x = chars_of(a);
    let y = chars_of(b);
    if x.len() != y.len() {
        return false;
    }
    for i in 0..x.len()
        invariant
            x@ == a@,
            y@ == b@,
            x@.len() == y@.len(),
            forall|j: int| 0 <= j < i ==> x@[j] == y@[j],
    {
        if x[i] != y[i] {
            return false;
        }
    }
    assert(x@ =~= y@);
    true
}

/// Whether `name` is one of `list`.
pub fn contains_text(list: &Vec<String>, name: &str) -> (b: bool)
    ensures
        b == string_views(list@).contains(name@),
{
    let ghost vs = string_views(list@);
    for i in 0..list.len()
        invariant
            vs == string_views(list@),
            forall|j: int| 0 <= j < i ==> vs[j] != name@,
    {
        assert(vs[i as int] == list@[i as int]@);
        if same_text(list[i].as_str(), name) {
            return true;
        }
    }
    false
}

/// Whether `s` holds the character `c`.
pub fn contains_char(s: &str, c: char) -> (b: bool)
    ensures
        b == s@.contains(c),
{
    let v = chars_of(s);
    is_one_of(c, v.as_slice())
}

/// Position of the first `c` in `s`.
pub fn find_char(s: &str, c: char) -> (out: Option<usize>)
    ensures
        out is Some <==> find(s@, seq![c]) < s@.len(),
        out matches Some(k) ==> k == find(s@, seq![c]),
{
    let v = chars_of(s);
    assert(seq![c][0] == c);
    for i in 0..v.len()
        invariant
            v@ == s@,
            seq![c][0] == c,
            forall|j: int| 0 <= j < i ==> !seq![c].contains(#[trigger] s@[j]),
    {
        if v[i] == c {
            proof {
                lemma_find_is(s@, seq![c], i as nat);
            }
            return Some(i);
        }
    }
    proof {
        lemma_find_is(s@, seq![c], s@.len());
    }
    None
}

/// `s` without the white space at both of its ends.
pub fn trim(s: &str) -> (out: &str)
    ensures
        out@ == trimmed(s@),
{
    let v = chars_of(s);
    let mut lo: usize = 0;
    while lo < v.len() && is_whitespace(v[lo])
        invariant
            v@ == s@,
            lo <= v@.len(),
            forall|j: int| 0 <= j < lo ==> is_space(#[trigger] s@[j]),
        decreases v@.len() - lo,
    {
        lo = lo + 1;
    }
    let mut hi: usize = v.len();
    while hi > lo && is_whitespace(v[hi - 1])
        invariant
            v@ == s@,
            lo <= hi <= v@.len(),
            forall|j: int| hi <= j < s@.len() ==> is_space(#[trigger] s@[j]),
        decreases hi,
    {
        hi = hi - 1;
    }
    proof {
        lemma_trimmed_is(s@, lo as int, hi as int);
    }
    s.substring_char(lo, hi)
}

/// The pieces of `s` between the separators `seps`.
pub fn split<'a>(s: &'a str, seps: &[char]) -> (out: Vec<&'a str>)
    ensures
        views(out@) == split_on(s@, seps@),
        out@.len() > 0,
{
    let v = chars_of(s);
    let n = v.len();
    let mut out: Vec<&'a str> = Vec::new();
    let mut start: usize = 0;
    assert(s@.skip(0) =~= s@);
    for i in 0..n
        invariant
            v@ == s@,
            n == v@.len(),
            start <= i,
            forall|j: int| start <= j < i ==> !seps@.contains(#[trigger] s@[j]),
            views(out@) + split_on(s@.skip(start as int), seps@) == split_on(s@, seps@),
    {
        if is_one_of(v[i], seps) {
            let piece = s.substring_char(start, i);
            proof {
                let rest = s@.skip(start as int);
                assert(rest[i - start] == s@[i as int]);
                assert forall|j: int| 0 <= j < i - start implies !seps@.contains(
                    #[trigger] rest[j],
                ) by {
                    assert(rest[j] == s@[start + j]);
                }
                lemma_find_is(rest, seps@, (i - start) as nat);
                assert(rest.take(i - start) =~= s@.subrange(start as int, i as int));
                assert(rest.skip(i - start + 1) =~= s@.skip(i + 1));
                assert(views(out@.push(piece)) =~= views(out@).push(piece@));
                assert(views(out@).push(piece@) + split_on(s@.skip(i + 1), seps@) =~= views(out@)
                    + split_on(rest, seps@));
            }
            out.push(piece);
            start = i + 1;
        }
    }
    let piece = s.substring_char(start, n);
    proof {
        let rest = s@.skip(start as int);
        assert forall|j: int| 0 <= j < rest.len() implies !seps@.contains(#[trigger] rest[j]) by {
            assert(rest[j] == s@[start + j]);
        }
        lemma_find_is(rest, seps@, rest.len());
        assert(rest =~= s@.subrange(start as int, n as int));
        assert(views(out@.push(piece)) =~= views(out@) + seq![piece@]);
    }
    out.push(piece);
    out
}

/// `s` without one final carriage return.
fn drop_cr(s: &str) -> (out: &str)
    ensures
        out@ == without_cr(s@),
{
    let n = s.unicode_len();
    if n > 0 && s.get_char(n - 1) == '\r' {
        s.substring_char(0, n - 1)
    } else {
        s
    }
}

/// The lines of `s`.
pub fn lines(s: &str) -> (out: Vec<&str>)
    ensures
        views(out@) == lines_of(s@),
{
    let v = chars_of(s);
    let n = v.len();
    let mut out: Vec<&str> = Vec::new();
    let mut start: usize = 0;
    assert(s@.skip(0) =~= s@);
    for i in 0..n
        invariant
            v@ == s@,
            n == v@.len(),
            start <= i,
            forall|j: int| start <= j < i ==> !seq!['\n'].contains(#[trigger] s@[j]),
            views(out@) + lines_of(s@.skip(start as int)) == lines_of(s@),
    {
        if v[i] == '\n' {
            let line = drop_cr(s.substring_char(start, i));
            proof {
                let rest = s@.skip(start as int);
                assert(rest[i - start] == s@[i as int]);
                assert(seq!['\n'][0] == '\n');
                assert forall|j: int| 0 <= j < i - start implies !seq!['\n'].contains(
                    #[trigger] rest[j],
                ) by {
                    assert(rest[j] == s@[start + j]);
                }
                lemma_find_is(rest, seq!['\n'], (i - start) as nat);
                assert(rest.take(i - start) =~= s@.subrange(start as int, i as int));
                assert(rest.skip(i - start + 1) =~= s@.skip(i + 1));
                assert(views(out@.push(line)) =~= views(out@).push(line@));
                assert(views(out@).push(line@) + lines_of(s@.skip(i + 1)) =~= views(out@)
                    + lines_of(rest));
            }
            out.push(line);
            start = i + 1;
        }
    }
    let ghost rest = s@.skip(start as int);
    if start < n {
        let line = s.substring_char(start, n);
        proof {
            assert forall|j: int| 0 <= j < rest.len() implies !seq!['\n'].contains(
                #[trigger] rest[j],
            ) by {
                assert(rest[j] == s@[start + j]);
            }
            lemma_find_is(rest, seq!['\n'], rest.len());
            assert(rest =~= s@.subrange(start as int, n as int));
            assert(views(out@.push(line)) =~= views(out@) + seq![line@]);
        }
        out.push(line);
    } else {
        assert(views(out@) + lines_of(rest) =~= views(out@));
    }
    out
}

/// The runs of `s` between white space.
pub fn words(s: &str) -> (out: Vec<&str>)
    ensures
        views(out@) == words_of(s@),
{
    let v = chars_of(s);
    let n = v.len();
    let mut out: Vec<&str> = Vec::new();
    let mut i: usize = 0;
    assert(s@.skip(0) =~= s@);
    while i < n
        invariant
            v@ == s@,
            n == v@.len(),
            i <= n,
            views(out@) + words_of(s@.skip(i as int)) == words_of(s@),
        decreases n - i,
    {
        let ghost rest = s@.skip(i as int);
        assert(rest[0] == s@[i as int]);
        if is_whitespace(v[i]) {
            assert(rest.drop_first() =~= s@.skip(i + 1));
            i = i + 1;
        } else {
            let start = i;
            i = i + 1;
            while i < n && !is_whitespace(v[i])
                invariant
                    v@ == s@,
                    n == v@.len(),
                    start < i <= n,
                    forall|j: int| start <= j < i ==> !is_space(#[trigger] s@[j]),
                decreases n - i,
            {
                i = i + 1;
            }
            let word = s.substring_char(start, i);
            proof {
                let tail = rest.drop_first();
                let k = (i - start - 1) as nat;
                assert forall|j: int| 0 <= j < k implies !is_space(#[trigger] tail[j]) by {
                    assert(tail[j] == s@[start + 1 + j]);
                }
                if k < tail.len() {
                    assert(tail[k as int] == s@[i as int]);
                }
                lemma_word_len_is(tail, k);
                assert(rest.take(k as int + 1) =~= word@);
                assert(rest.skip(k as int + 1) =~= s@.skip(i as int));
                assert(views(out@.push(word)) =~= views(out@).push(word@));
                assert(views(out@).push(word@) + words_of(s@.skip(i as int)) =~= views(out@)
                    + words_of(rest));
            }
            out.push(word);
        }
    }
    assert(s@.skip(n as int) =~= seq![]);
    assert(views(out@) + words_of(s@.skip(n as int)) =~= views(out@));
    out
}

/// What follows `p` in `s`, where `s` starts with `p`.
pub fn strip_prefix<'a>(s: &'a str, p: &str) -> (out: Option<&'a str>)
    ensures
        out is Some <==> has_prefix(s@, p@),
        out matches Some(rest) ==> rest@ == s@.skip(p@.len() as int),
{
    let n = s.unicode_len();
    let k = p.unicode_len();
    if k <= n && same_text(s.substring_char(0, k), p) {
        assert(s@.subrange(0, k as int) =~= s@.take(k as int));
        assert(s@.subrange(k as int, n as int) =~= s@.skip(k as int));
        Some(s.substring_char(k, n))
    } else {
        if k <= n {
            assert(s@.subrange(0, k as int) =~= s@.take(k as int));
        }
        None
    }
}

/// Whether `s` starts with `p`.
pub fn starts_with(s: &str, p: &str) -> (b: bool)
    ensures
        b == has_prefix(s@, p@),
{
    strip_prefix(s, p).is_some()
}

/// Whether `s` ends in `p`.
pub fn ends_with(s: &str, p: &str) -> (b: bool)
    ensures
        b == has_suffix(s@, p@),
{
    let n = s.unicode_len();
    let k = p.unicode_len();
    if k <= n {
        assert(s@.subrange(n - k, n as int) =~= s@.skip(n - k));
        same_text(s.substring_char(n - k, n), p)
    } else {
        false
    }
}

/// The number that `s` writes, where it is at most `max`; see [`parsed_unsigned`].
pub fn parse_unsigned(s: &str, max: u64) -> (out: Option<u64>)
    ensures
        out is Some <==> parsed_unsigned(s@, max as nat) is Some,
        out matches Some(n) ==> parsed_unsigned(s@, max as nat) == Some(n as nat),
{
    let v = chars_of(s);
    let n = v.len();
    let start: usize = if n > 0 && v[0] == '+' {
        1
    } else {
        0
    };
    let ghost digits = s@.skip(start as int);
    assert(digits =~= if s@.len() > 0 && s@[0] == '+' {
        s@.drop_first()
    } else {
        s@
    });
    if start == n {
        return None;
    }
    let mut acc: u64 = 0;
    assert(digits.take(0) =~= seq![]);
    for i in start..n
        invariant
            v@ == s@,
            n == v@.len(),
            start <= 1,
            digits == s@.skip(start as int),
            digits =~= if s@.len() > 0 && s@[0] == '+' {
                s@.drop_first()
            } else {
                s@
            },
            acc <= max,
            acc == decimal_value(digits.take(i - start)),
            forall|j: int| 0 <= j < i - start ==> is_digit(#[trigger] digits[j]),
    {
        let c = v[i];
        assert(digits[i - start] == c);
        if !('0' <= c && c <= '9') {
            assert(!is_digit(digits[i - start]));
            return None;
        }
        let d: u64 = (c as u32 - '0' as u32) as u64;
        proof {
            assert(digits.take(i - start + 1).drop_last() =~= digits.take(i - start));
            lemma_decimal_prefix(digits, i - start + 1);
        }
        let next: u128 = 10 * acc as u128 + d as u128;
        if next > max as u128 {
            return None;
        }
        acc = next as u64;
    }
    assert(digits.take(digits.len() as int) =~= digits);
    Some(acc)
}

/// The `usize` that `s` writes.
pub fn parse_usize(s: &str) -> (out: Option<usize>)
    ensures
        out is Some <==> parsed_unsigned(s@, usize::MAX as nat) is Some,
        out matches Some(n) ==> parsed_unsigned(s@, usize::MAX as nat) == Some(n as nat),
{
    match parse_unsigned(s, usize::MAX as u64) {
        Some(n) => Some(n as usize),
        None => None,
    }
}

/// The `i32` that `s` writes.
pub fn parse_i32(s: &str) -> (out: Option<i32>)
    ensures
        out is Some <==> parsed_i32(s@) is Some,
        out matches Some(n) ==> parsed_i32(s@) == Some(n as int),
{
    let n = s.unicode_len();
    if n > 0 && s.get_char(0) == '-' {
        let rest = s.substring_char(1, n);
        assert(rest@ =~= s@.drop_first());
        if n > 1 && rest.get_char(0) == '+' {
            assert(!is_digit(rest@[0]));
            return None;
        }
        match parse_unsigned(rest, 0x8000_0000) {
            Some(m) => Some((-(m as i64)) as i32),
            None => None,
        }
    } else {
        match parse_unsigned(s, 0x7fff_ffff) {
            Some(m) => Some(m as i32),
            None => None,
        }
    }
}

/// The digit for `d`, as a text of its own.
fn digit_text(d: u64) -> (out: &'static str)
    requires
        d < 10,
    ensures
        out@ == seq![digit_char(d as nat)],
{
    proof {
        reveal_strlit("0");
        reveal_strlit("1");
        reveal_strlit("2");
        reveal_strlit("3");
        reveal_strlit("4");
        reveal_strlit("5");
        reveal_strlit("6");
        reveal_strlit("7");
        reveal_strlit("8");
        reveal_strlit("9");
    }
    let out: &'static str = match d {
        0 => "0",
        1 => "1",
        2 => "2",
        3 => "3",
        4 => "4",
        5 => "5",
        6 => "6",
        7 => "7",
        8 => "8",
        _ => "9",
    };
    assert(out@ =~= seq![digit_char(d as nat)]);
    out
}

/// Appends `n` in base ten to `out`.
pub fn push_decimal(out: &mut String, n: u64)
    ensures
        final(out)@ == old(out)@ + decimal_text(n as nat),
    decreases n,
{
    if n >= 10 {
        push_decimal(out, n / 10);
    }
    let ghost before = out@;
    out.append(digit_text(n % 10));
    proof {
        if n >= 10 {
            assert(decimal_text(n as nat) =~= decimal_text((n / 10) as nat) + seq![
                digit_char((n % 10) as nat),
            ]);
            assert(out@ =~= old(out)@ + decimal_text(n as nat));
        }
    }
}

/// Appends `n` in base ten to `out`.
pub fn push_signed(out: &mut String, n: i32)
    ensures
        final(out)@ == old(out)@ + signed_text(n as int),
{
    if n < 0 {
        out.append("-");
        push_decimal(out, (-(n as i64)) as u64);
        assert(out@ =~= old(out)@ + signed_text(n as int));
    } else {
        push_decimal(out, n as u64);
    }
}

/// White space is what Unicode calls so: 25 characters, and no other.
pub proof fn law_white_space_is_what_unicode_lists(c: char, b: bool)
    requires
        call_ensures(is_whitespace, (c,), b),
    ensures
        b <==> {
            ||| c == '\t' || c == '\n' || c == '\u{b}' || c == '\u{c}' || c == '\r'
            ||| c == ' ' || c == '\u{85}' || c == '\u{a0}' || c == '\u{1680}' || c == '\u{2000}'
            ||| c == '\u{2001}' || c == '\u{2002}' || c == '\u{2003}'
            ||| c == '\u{2004}' || c == '\u{2005}'
            ||| c == '\u{2006}' || c == '\u{2007}' || c == '\u{2008}'
            ||| c == '\u{2009}' || c == '\u{200a}'
            ||| c == '\u{2028}' || c == '\u{2029}' || c == '\u{202f}'
            ||| c == '\u{205f}' || c == '\u{3000}'
        },
{
}

} // verus!
