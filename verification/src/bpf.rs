//! The probes in the kernel: the names that they look for and the events that they
//! report.

use vstd::prelude::*;
use vstd::utf8;

use crate::bytes;
use crate::bytes::{read_i32, read_u32};
use crate::common::EINTR;
use crate::config::AppConfig;
use crate::text;
use crate::text::{contains_text, ends_with, starts_with};

verus! {

// ---------------------------------------------------------------------------
// From a thread's name to its package
// ---------------------------------------------------------------------------

/// Number of bytes from which on a thread's name may be a package name that the
/// kernel cut short.
pub const COMM_CUT: usize = 15;

/// The first of `pkgs` that starts with `comm`.
pub open spec fn first_starting(pkgs: Seq<Seq<char>>, comm: Seq<char>) -> Option<Seq<char>>
    decreases pkgs.len(),
{
    if pkgs.len() == 0 {
        None
    } else if text::has_prefix(pkgs[0], comm) {
        Some(pkgs[0])
    } else {
        first_starting(pkgs.skip(1), comm)
    }
}

/// The first of `pkgs` that ends with `comm`.
pub open spec fn first_ending(pkgs: Seq<Seq<char>>, comm: Seq<char>) -> Option<Seq<char>>
    decreases pkgs.len(),
{
    if pkgs.len() == 0 {
        None
    } else if text::has_suffix(pkgs[0], comm) {
        Some(pkgs[0])
    } else {
        first_ending(pkgs.skip(1), comm)
    }
}

/// The package that a thread named `comm` belongs to: the one of that name; else,
/// where the name may have been cut short, the first that starts with it; else the
/// first that ends with it.
pub open spec fn package_for(comm: Seq<char>, pkgs: Seq<Seq<char>>) -> Option<Seq<char>> {
    if pkgs.contains(comm) {
        Some(comm)
    } else if utf8::encode_utf8(comm).len() < COMM_CUT {
        None
    } else if first_starting(pkgs, comm) is Some {
        first_starting(pkgs, comm)
    } else {
        first_ending(pkgs, comm)
    }
}

/// The package of `cfg` that a thread named `comm` belongs to.
pub fn comm_to_pkg(comm: &str, cfg: &AppConfig) -> (out: Option<String>)
    ensures
        out.deep_view() == package_for(comm@, cfg.pkgs()),
{
    if contains_text(&cfg.pkg_set, comm) {
        return Some(comm.to_owned());
    }
    if comm.as_bytes().len() < COMM_CUT {
        return None;
    }
    let ghost pkgs = cfg.pkgs();
    let n = cfg.pkg_set.len();
    assert(pkgs.skip(0) =~= pkgs);
    for i in 0..n
        invariant
            n == cfg.pkg_set.len(),
            pkgs == cfg.pkgs(),
            first_starting(pkgs, comm@) == first_starting(pkgs.skip(i as int), comm@),
            !pkgs.contains(comm@),
            utf8::encode_utf8(comm@).len() >= COMM_CUT,
    {
        assert(pkgs.skip(i as int)[0] == cfg.pkg_set@[i as int]@);
        assert(pkgs.skip(i as int).skip(1) =~= pkgs.skip(i + 1));
        if starts_with(cfg.pkg_set[i].as_str(), comm) {
            return Some(cfg.pkg_set[i].clone());
        }
    }
    for i in 0..n
        invariant
            n == cfg.pkg_set.len(),
            pkgs == cfg.pkgs(),
            first_starting(pkgs, comm@) is None,
            first_ending(pkgs, comm@) == first_ending(pkgs.skip(i as int), comm@),
            !pkgs.contains(comm@),
            utf8::encode_utf8(comm@).len() >= COMM_CUT,
    {
        assert(pkgs.skip(i as int)[0] == cfg.pkg_set@[i as int]@);
        assert(pkgs.skip(i as int).skip(1) =~= pkgs.skip(i + 1));
        if ends_with(cfg.pkg_set[i].as_str(), comm) {
            return Some(cfg.pkg_set[i].clone());
        }
    }
    None
}

// ---------------------------------------------------------------------------
// The whitelist of names
// ---------------------------------------------------------------------------

/// Number of bytes of a key.
pub const KEY_LEN: usize = 8;

/// The key of the first bytes of `b`, filled up with zeros.
pub open spec fn prefix_key(b: Seq<u8>) -> Seq<u8> {
    Seq::new(
        KEY_LEN as nat,
        |i: int|
            if i < b.len() {
                b[i]
            } else {
                0u8
            },
    )
}

/// The key of the last bytes of `b`, which has more than a key's length.
pub open spec fn suffix_key(b: Seq<u8>) -> Seq<u8> {
    b.skip(b.len() - KEY_LEN)
}

/// Whether `key` is a key of the name with the bytes `b`. An empty name has none.
pub open spec fn is_key_of(b: Seq<u8>, key: Seq<u8>) -> bool {
    b.len() > 0 && (key == prefix_key(b) || (b.len() > KEY_LEN && key == suffix_key(b)))
}

/// Whether `key` is a key of one of `pkgs`.
pub open spec fn is_whitelisted(pkgs: Seq<Seq<char>>, key: Seq<u8>) -> bool {
    exists|i: int| 0 <= i < pkgs.len() && is_key_of(utf8::encode_utf8(#[trigger] pkgs[i]), key)
}

/// Whether `a` comes before `b`: it has the smaller byte where they first differ.
pub open spec fn precedes(a: Seq<u8>, b: Seq<u8>) -> bool {
    exists|k: int|
        0 <= k < KEY_LEN && #[trigger] a[k] < b[k] && forall|j: int| 0 <= j < k ==> a[j] == b[j]
}

/// Whether every key comes before the keys behind it.
pub open spec fn is_ascending(keys: Seq<[u8; KEY_LEN]>) -> bool {
    forall|i: int, j: int|
        0 <= i < j < keys.len() ==> precedes(#[trigger] keys[i]@, #[trigger] keys[j]@)
}

/// Whether `key` is one of `keys`.
pub open spec fn has_key(keys: Seq<[u8; KEY_LEN]>, key: Seq<u8>) -> bool {
    exists|i: int| 0 <= i < keys.len() && (#[trigger] keys[i])@ == key
}

/// Of two different keys one comes before the other.
proof fn lemma_precedes_total(a: Seq<u8>, b: Seq<u8>)
    requires
        a.len() == KEY_LEN,
        b.len() == KEY_LEN,
        a != b,
    ensures
        precedes(a, b) || precedes(b, a),
{
    assert(!(a =~= b));
    let d = choose|d: int| 0 <= d < KEY_LEN && a[d] != b[d];
    let k = lemma_first_difference(a, b, d);
    if a[k] < b[k] {
        assert(precedes(a, b));
    } else {
        assert(b[k] < a[k]);
        assert(precedes(b, a));
    }
}

/// Two keys that differ have a first difference.
proof fn lemma_first_difference(a: Seq<u8>, b: Seq<u8>, d: int) -> (k: int)
    requires
        0 <= d < KEY_LEN,
        a[d] != b[d],
    ensures
        0 <= k <= d,
        a[k] != b[k],
        forall|j: int| 0 <= j < k ==> a[j] == b[j],
    decreases d,
{
    if forall|j: int| 0 <= j < d ==> a[j] == b[j] {
        d
    } else {
        let e = choose|e: int| 0 <= e < d && a[e] != b[e];
        lemma_first_difference(a, b, e)
    }
}

/// The order of keys is transitive.
proof fn lemma_precedes_transitive(a: Seq<u8>, b: Seq<u8>, c: Seq<u8>)
    requires
        precedes(a, b),
        precedes(b, c),
    ensures
        precedes(a, c),
{
    let k = choose|k: int|
        0 <= k < KEY_LEN && #[trigger] a[k] < b[k] && forall|j: int| 0 <= j < k ==> a[j] == b[j];
    let l = choose|l: int|
        0 <= l < KEY_LEN && #[trigger] b[l] < c[l] && forall|j: int| 0 <= j < l ==> b[j] == c[j];
    if k <= l {
        assert(a[k] < c[k]);
    } else {
        assert(a[l] < c[l]);
    }
}

/// A key does not come before itself, nor before one that comes before it.
proof fn lemma_precedes_strict(a: Seq<u8>, b: Seq<u8>)
    requires
        precedes(a, b),
    ensures
        a != b,
        !precedes(b, a),
{
    let k = choose|k: int|
        0 <= k < KEY_LEN && #[trigger] a[k] < b[k] && forall|j: int| 0 <= j < k ==> a[j] == b[j];
    if precedes(b, a) {
        let l = choose|l: int|
            0 <= l < KEY_LEN && #[trigger] b[l] < a[l] && forall|j: int|
                0 <= j < l ==> b[j] == a[j];
        assert(k == l);
    }
}

/// Whether `a` comes before `b`.
fn key_precedes(a: &[u8; KEY_LEN], b: &[u8; KEY_LEN]) -> (r: bool)
    ensures
        r == precedes(a@, b@),
{
    for i in 0..KEY_LEN
        invariant
            forall|j: int| 0 <= j < i ==> a@[j] == b@[j],
    {
        if a[i] < b[i] {
            assert(a@[i as int] < b@[i as int]);
            return true;
        }
        if a[i] > b[i] {
            proof {
                assert(b@[i as int] < a@[i as int]);
                assert(precedes(b@, a@));
                lemma_precedes_strict(b@, a@);
            }
            return false;
        }
    }
    false
}

/// Adds `key` at its place, where it is not there yet.
fn insert_key(keys: &mut Vec<[u8; KEY_LEN]>, key: [u8; KEY_LEN])
    requires
        is_ascending(old(keys)@),
    ensures
        is_ascending(final(keys)@),
        forall|k: Seq<u8>| #[trigger]
            has_key(final(keys)@, k) <==> has_key(old(keys)@, k) || k == key@,
{
    let ghost before = keys@;
    let mut at: usize = 0;
    while at < keys.len() && key_precedes(&keys[at], &key)
        invariant
            keys@ == before,
            at <= keys.len(),
            forall|i: int| 0 <= i < at ==> precedes(#[trigger] before[i]@, key@),
        decreases keys.len() - at,
    {
        at = at + 1;
    }
    if at < keys.len() && !key_precedes(&key, &keys[at]) {
        proof {
            if before[at as int]@ != key@ {
                lemma_precedes_total(before[at as int]@, key@);
            }
            assert(has_key(before, key@));
        }
        return;
    }
    keys.insert(at, key);
    proof {
        let after = keys@;
        assert(after[at as int] == key);
        assert forall|i: int, j: int| 0 <= i < j < after.len() implies precedes(
            #[trigger] after[i]@,
            #[trigger] after[j]@,
        ) by {
            if j < at {
                assert(after[i] == before[i] && after[j] == before[j]);
            } else if j == at {
                assert(after[i] == before[i]);
            } else {
                assert(after[j] == before[j - 1]);
                if at < j - 1 {
                    assert(precedes(before[at as int]@, before[j - 1]@));
                    lemma_precedes_transitive(key@, before[at as int]@, before[j - 1]@);
                }
                assert(precedes(key@, after[j]@));
                if i < at {
                    assert(after[i] == before[i]);
                } else if i > at {
                    assert(after[i] == before[i - 1]);
                }
            }
        }
        assert forall|k: Seq<u8>| #[trigger]
            has_key(after, k) <==> has_key(before, k) || k == key@ by {
            if has_key(before, k) {
                let i = choose|i: int| 0 <= i < before.len() && (#[trigger] before[i])@ == k;
                if i < at {
                    assert(after[i] == before[i]);
                } else {
                    assert(after[i + 1] == before[i]);
                }
            }
            if has_key(after, k) {
                let i = choose|i: int| 0 <= i < after.len() && (#[trigger] after[i])@ == k;
                if i < at {
                    assert(before[i] == after[i]);
                } else if i > at {
                    assert(before[i - 1] == after[i]);
                }
            }
        }
    }
}

/// The key of the `KEY_LEN` bytes of `b` from `start` on, filled up with zeros.
fn key_from(b: &[u8], start: usize) -> (key: [u8; KEY_LEN])
    requires
        start <= b@.len(),
    ensures
        key@ == prefix_key(b@.skip(start as int)),
{
    let mut key: [u8; KEY_LEN] = [0;KEY_LEN];
    for i in 0..KEY_LEN
        invariant
            start <= b@.len(),
            forall|j: int|
                0 <= j < KEY_LEN ==> #[trigger] key@[j] == (if j < i && j < b@.len() - start {
                    b@[start + j]
                } else {
                    0u8
                }),
    {
        if i < b.len() - start {
            key[i] = b[start + i];
        }
    }
    assert(key@ =~= prefix_key(b@.skip(start as int)));
    key
}

/// The keys by which the probes tell the names of `pkgs` from others: of each name
/// the first bytes, and the last bytes where it is longer than a key. The kernel
/// keeps so few bytes of a thread's name that it may have cut off either end. The
/// keys are sorted, and each is there once.
pub fn comm_keys_build(pkgs: &Vec<String>) -> (keys: Vec<[u8; KEY_LEN]>)
    ensures
        is_ascending(keys@),
        forall|key: Seq<u8>| #[trigger]
            has_key(keys@, key) <==> is_whitelisted(text::string_views(pkgs@), key),
{
    let mut keys: Vec<[u8; KEY_LEN]> = Vec::new();
    let ghost names = text::string_views(pkgs@);
    for i in 0..pkgs.len()
        invariant
            names == text::string_views(pkgs@),
            is_ascending(keys@),
            forall|key: Seq<u8>| #[trigger]
                has_key(keys@, key) <==> is_whitelisted(names.take(i as int), key),
    {
        let b = pkgs[i].as_str().as_bytes();
        let ghost name = utf8::encode_utf8(names[i as int]);
        let ghost before = keys@;
        assert(b@ == name);
        if b.len() > 0 {
            assert(b@.skip(0) =~= b@);
            insert_key(&mut keys, key_from(b, 0));
            if b.len() > KEY_LEN {
                assert(prefix_key(suffix_key(name)) =~= suffix_key(name));
                insert_key(&mut keys, key_from(b, b.len() - KEY_LEN));
            }
        }
        proof {
            assert(forall|key: Seq<u8>| #[trigger]
                has_key(keys@, key) <==> has_key(before, key) || is_key_of(name, key));
            assert forall|key: Seq<u8>| #[trigger]
                has_key(keys@, key) <==> is_whitelisted(names.take(i + 1), key) by {
                lemma_whitelist_grows(names, i as int, key);
            }
        }
    }
    assert(names.take(names.len() as int) =~= names);
    keys
}

/// One more name adds its own keys.
proof fn lemma_whitelist_grows(names: Seq<Seq<char>>, i: int, key: Seq<u8>)
    requires
        0 <= i < names.len(),
    ensures
        is_whitelisted(names.take(i + 1), key) <==> is_whitelisted(names.take(i), key)
            || is_key_of(utf8::encode_utf8(names[i]), key),
{
    let less = names.take(i);
    let more = names.take(i + 1);
    assert(more[i] == names[i]);
    if is_whitelisted(less, key) {
        let k = choose|k: int|
            0 <= k < less.len() && is_key_of(utf8::encode_utf8(#[trigger] less[k]), key);
        assert(more[k] == less[k]);
    }
    if is_whitelisted(more, key) {
        let k = choose|k: int|
            0 <= k < more.len() && is_key_of(utf8::encode_utf8(#[trigger] more[k]), key);
        if k < i {
            assert(less[k] == more[k]);
        }
    }
}

/// The bytes of a text are those of its parts, one after the other.
proof fn lemma_encode_concat(a: Seq<char>, b: Seq<char>)
    ensures
        utf8::encode_utf8(a + b) == utf8::encode_utf8(a) + utf8::encode_utf8(b),
    decreases a.len(),
{
    if a.len() == 0 {
        assert(a + b =~= b);
        assert(utf8::encode_utf8(a) + utf8::encode_utf8(b) =~= utf8::encode_utf8(b));
    } else {
        let ab = a + b;
        lemma_encode_concat(a.drop_first(), b);
        assert(ab.drop_first() =~= a.drop_first() + b);
        assert(utf8::encode_utf8(ab) =~= utf8::encode_utf8(a) + utf8::encode_utf8(b));
    }
}

/// The first match is one of the packages.
proof fn lemma_first_starting(pkgs: Seq<Seq<char>>, comm: Seq<char>)
    ensures
        first_starting(pkgs, comm) matches Some(p) ==> pkgs.contains(p) && text::has_prefix(
            p,
            comm,
        ),
    decreases pkgs.len(),
{
    if pkgs.len() > 0 && !text::has_prefix(pkgs[0], comm) {
        let rest = pkgs.skip(1);
        lemma_first_starting(rest, comm);
        if let Some(p) = first_starting(rest, comm) {
            assert(pkgs[rest.index_of(p) + 1] == p);
        }
    }
}

/// The first match is one of the packages.
proof fn lemma_first_ending(pkgs: Seq<Seq<char>>, comm: Seq<char>)
    ensures
        first_ending(pkgs, comm) matches Some(p) ==> pkgs.contains(p) && text::has_suffix(p, comm),
    decreases pkgs.len(),
{
    if pkgs.len() > 0 && !text::has_suffix(pkgs[0], comm) {
        let rest = pkgs.skip(1);
        lemma_first_ending(rest, comm);
        if let Some(p) = first_ending(rest, comm) {
            assert(pkgs[rest.index_of(p) + 1] == p);
        }
    }
}

/// No package before the first match matches.
proof fn lemma_first_starting_is_first(pkgs: Seq<Seq<char>>, comm: Seq<char>)
    ensures
        first_starting(pkgs, comm) is None ==> forall|i: int|
            0 <= i < pkgs.len() ==> !text::has_prefix(#[trigger] pkgs[i], comm),
        first_starting(pkgs, comm) matches Some(p) ==> exists|i: int|
            0 <= i < pkgs.len() && (#[trigger] pkgs[i]) == p && text::has_prefix(p, comm) && forall|
                j: int,
            | 0 <= j < i ==> !text::has_prefix(#[trigger] pkgs[j], comm),
    decreases pkgs.len(),
{
    if pkgs.len() > 0 && !text::has_prefix(pkgs[0], comm) {
        let rest = pkgs.skip(1);
        lemma_first_starting_is_first(rest, comm);
        assert(forall|i: int| 0 < i < pkgs.len() ==> #[trigger] pkgs[i] == rest[i - 1]);
        if let Some(p) = first_starting(rest, comm) {
            let i = choose|i: int|
                0 <= i < rest.len() && (#[trigger] rest[i]) == p && text::has_prefix(p, comm)
                    && forall|j: int|
                    0 <= j < i ==> !text::has_prefix(#[trigger] rest[j], comm);
            assert(pkgs[i + 1] == p);
            assert forall|j: int| 0 <= j < i + 1 implies !text::has_prefix(
                #[trigger] pkgs[j],
                comm,
            ) by {
                if j > 0 {
                    assert(rest[j - 1] == pkgs[j]);
                }
            }
        } else {
            assert forall|i: int| 0 <= i < pkgs.len() implies !text::has_prefix(
                #[trigger] pkgs[i],
                comm,
            ) by {
                if i > 0 {
                    assert(rest[i - 1] == pkgs[i]);
                }
            }
        }
    } else if pkgs.len() > 0 {
        assert(pkgs[0] == first_starting(pkgs, comm)->0);
    }
}

/// No package before the first match matches.
proof fn lemma_first_ending_is_first(pkgs: Seq<Seq<char>>, comm: Seq<char>)
    ensures
        first_ending(pkgs, comm) is None ==> forall|i: int|
            0 <= i < pkgs.len() ==> !text::has_suffix(#[trigger] pkgs[i], comm),
        first_ending(pkgs, comm) matches Some(p) ==> exists|i: int|
            0 <= i < pkgs.len() && (#[trigger] pkgs[i]) == p && text::has_suffix(p, comm) && forall|
                j: int,
            | 0 <= j < i ==> !text::has_suffix(#[trigger] pkgs[j], comm),
    decreases pkgs.len(),
{
    if pkgs.len() > 0 && !text::has_suffix(pkgs[0], comm) {
        let rest = pkgs.skip(1);
        lemma_first_ending_is_first(rest, comm);
        if let Some(p) = first_ending(rest, comm) {
            let i = choose|i: int|
                0 <= i < rest.len() && (#[trigger] rest[i]) == p && text::has_suffix(p, comm)
                    && forall|j: int|
                    0 <= j < i ==> !text::has_suffix(#[trigger] rest[j], comm);
            assert(pkgs[i + 1] == p);
            assert forall|j: int| 0 <= j < i + 1 implies !text::has_suffix(
                #[trigger] pkgs[j],
                comm,
            ) by {
                if j > 0 {
                    assert(rest[j - 1] == pkgs[j]);
                }
            }
        } else {
            assert forall|i: int| 0 <= i < pkgs.len() implies !text::has_suffix(
                #[trigger] pkgs[i],
                comm,
            ) by {
                if i > 0 {
                    assert(rest[i - 1] == pkgs[i]);
                }
            }
        }
    } else if pkgs.len() > 0 {
        assert(pkgs[0] == first_ending(pkgs, comm)->0);
    }
}

/// Whether `part` stands at the front of `whole`.
pub open spec fn stands_in_front(part: Seq<char>, whole: Seq<char>) -> bool {
    exists|rest: Seq<char>| whole == #[trigger] (part + rest)
}

/// Whether `part` stands at the end of `whole`.
pub open spec fn stands_at_the_end(part: Seq<char>, whole: Seq<char>) -> bool {
    exists|front: Seq<char>| whole == #[trigger] (front + part)
}

/// Standing at one end of a text is starting or ending it.
proof fn lemma_ends(part: Seq<char>, whole: Seq<char>)
    ensures
        stands_in_front(part, whole) == text::has_prefix(whole, part),
        stands_at_the_end(part, whole) == text::has_suffix(whole, part),
{
    if text::has_prefix(whole, part) {
        assert(whole =~= part + whole.skip(part.len() as int));
    }
    if text::has_suffix(whole, part) {
        assert(whole =~= whole.take(whole.len() - part.len()) + part);
    }
    if stands_in_front(part, whole) {
        let rest = choose|rest: Seq<char>| whole == #[trigger] (part + rest);
        assert(whole.take(part.len() as int) =~= part);
    }
    if stands_at_the_end(part, whole) {
        let front = choose|front: Seq<char>| whole == #[trigger] (front + part);
        assert(whole.skip(whole.len() - part.len()) =~= part);
    }
}

/// Every package can be found, wherever in the list it stands. A name that is a
/// package is that package. Any other name of fifteen bytes or more finds a package
/// exactly where one starts or ends with it: the first that starts with it, where
/// there is one, else the first that ends with it. A shorter name finds none.
pub proof fn law_every_package_is_found(comm: Seq<char>, pkgs: Seq<Seq<char>>)
    ensures
        ({
            let found = package_for(comm, pkgs);
            let exact = exists|i: int| 0 <= i < pkgs.len() && #[trigger] pkgs[i] == comm;
            let cut = utf8::encode_utf8(comm).len() >= 15;
            let front = exists|i: int|
                0 <= i < pkgs.len() && stands_in_front(comm, #[trigger] pkgs[i]);
            let end = exists|i: int|
                0 <= i < pkgs.len() && stands_at_the_end(comm, #[trigger] pkgs[i]);
            &&& exact ==> found == Some(comm)
            &&& !exact && !cut ==> found is None
            &&& !exact && cut ==> (found is Some <==> front || end)
            &&& !exact && cut && front ==> exists|i: int|
                0 <= i < pkgs.len() && found == Some(#[trigger] pkgs[i]) && stands_in_front(
                    comm,
                    pkgs[i],
                ) && forall|j: int| 0 <= j < i ==> !stands_in_front(comm, #[trigger] pkgs[j])
            &&& !exact && cut && !front && end ==> exists|i: int|
                0 <= i < pkgs.len() && found == Some(#[trigger] pkgs[i]) && stands_at_the_end(
                    comm,
                    pkgs[i],
                ) && forall|j: int| 0 <= j < i ==> !stands_at_the_end(comm, #[trigger] pkgs[j])
        }),
{
    lemma_first_starting_is_first(pkgs, comm);
    lemma_first_ending_is_first(pkgs, comm);
    assert forall|i: int| 0 <= i < pkgs.len() implies stands_in_front(comm, #[trigger] pkgs[i])
        == text::has_prefix(pkgs[i], comm) && stands_at_the_end(comm, pkgs[i])
        == text::has_suffix(pkgs[i], comm) by {
        lemma_ends(comm, pkgs[i]);
    }
    if !pkgs.contains(comm) {
        if let Some(p) = first_starting(pkgs, comm) {
            let i = choose|i: int|
                0 <= i < pkgs.len() && (#[trigger] pkgs[i]) == p && text::has_prefix(p, comm)
                    && forall|j: int|
                    0 <= j < i ==> !text::has_prefix(#[trigger] pkgs[j], comm);
            assert(stands_in_front(comm, pkgs[i]));
        } else if let Some(p) = first_ending(pkgs, comm) {
            let i = choose|i: int|
                0 <= i < pkgs.len() && (#[trigger] pkgs[i]) == p && text::has_suffix(p, comm)
                    && forall|j: int|
                    0 <= j < i ==> !text::has_suffix(#[trigger] pkgs[j], comm);
            assert(stands_at_the_end(comm, pkgs[i]));
        }
    }
}

/// The keys of a list of names, byte by byte: for each name that is not empty the
/// first eight bytes, with zeros where it has fewer; and for each name of more than
/// eight bytes its last eight.
pub proof fn law_keys_are_both_ends_of_names(pkgs: Seq<Seq<char>>, key: Seq<u8>)
    ensures
        is_whitelisted(pkgs, key) <==> key.len() == 8 && exists|i: int|
            #![trigger pkgs[i]]
            {
                let b = utf8::encode_utf8(pkgs[i]);
                &&& 0 <= i < pkgs.len()
                &&& b.len() > 0
                &&& {
                    ||| forall|j: int|
                        0 <= j < 8 ==> #[trigger] key[j] == (if j < b.len() {
                            b[j]
                        } else {
                            0u8
                        })
                    ||| b.len() > 8 && forall|j: int|
                        0 <= j < 8 ==> #[trigger] key[j] == b[b.len() - 8 + j]
                }
            },
{
    if is_whitelisted(pkgs, key) {
        let i = choose|i: int|
            0 <= i < pkgs.len() && is_key_of(utf8::encode_utf8(#[trigger] pkgs[i]), key);
        let b = utf8::encode_utf8(pkgs[i]);
        assert(b.len() > 0);
    }
    if key.len() == 8 {
        assert forall|i: int| 0 <= i < pkgs.len() && {
            let b = utf8::encode_utf8(#[trigger] pkgs[i]);
            &&& b.len() > 0
            &&& {
                ||| forall|j: int|
                    0 <= j < 8 ==> #[trigger] key[j] == (if j < b.len() {
                        b[j]
                    } else {
                        0u8
                    })
                ||| b.len() > 8 && forall|j: int|
                    0 <= j < 8 ==> #[trigger] key[j] == b[b.len() - 8 + j]
            }
        } implies is_key_of(utf8::encode_utf8(pkgs[i]), key) by {
            let b = utf8::encode_utf8(pkgs[i]);
            if forall|j: int|
                0 <= j < 8 ==> #[trigger] key[j] == (if j < b.len() {
                    b[j]
                } else {
                    0u8
                }) {
                assert(key =~= prefix_key(b));
            } else {
                assert(key =~= suffix_key(b));
            }
        }
    }
}

/// The order of keys is that of their bytes: where two keys agree up to a byte, the
/// one with the smaller byte comes first, and only that one.
pub proof fn law_keys_are_ordered_by_their_bytes(a: Seq<u8>, b: Seq<u8>, k: int)
    requires
        0 <= k < 8,
        forall|j: int| 0 <= j < k ==> a[j] == b[j],
    ensures
        a[k] < b[k] ==> precedes(a, b) && !precedes(b, a),
        a == b ==> !precedes(a, b),
{
    if a[k] < b[k] {
        assert(precedes(a, b));
        lemma_precedes_strict(a, b);
    }
}

/// The package of a thread is one that a rule names, and the thread's name is that
/// package, its beginning or its end.
pub proof fn law_packages_match_names(comm: Seq<char>, pkgs: Seq<Seq<char>>)
    ensures
        package_for(comm, pkgs) matches Some(p) ==> {
            &&& pkgs.contains(p)
            &&& text::has_prefix(p, comm) || text::has_suffix(p, comm)
        },
{
    lemma_first_starting(pkgs, comm);
    lemma_first_ending(pkgs, comm);
    assert(comm.take(comm.len() as int) =~= comm);
}

/// Every thread that belongs to a package has a key in the whitelist: the key of
/// its name's beginning or that of its end. So a probe that reports the names with
/// one of these two keys misses no thread that [`comm_to_pkg`] has a package for.
pub proof fn law_matched_names_are_whitelisted(comm: Seq<char>, pkgs: Seq<Seq<char>>)
    requires
        comm.len() > 0,
    ensures
        package_for(comm, pkgs) is Some ==> {
            let b = utf8::encode_utf8(comm);
            ||| is_whitelisted(pkgs, prefix_key(b))
            ||| b.len() > KEY_LEN && is_whitelisted(pkgs, suffix_key(b))
        },
{
    lemma_first_starting(pkgs, comm);
    lemma_first_ending(pkgs, comm);
    if let Some(p) = package_for(comm, pkgs) {
        let b = utf8::encode_utf8(comm);
        let name = utf8::encode_utf8(p);
        let i = if pkgs.contains(comm) {
            pkgs.index_of(comm)
        } else {
            pkgs.index_of(p)
        };
        if pkgs.contains(comm) {
            assert(pkgs[i] == comm);
            assert(comm =~= seq![comm[0]] + comm.drop_first());
            assert(b.len() > 0);
            assert(is_key_of(utf8::encode_utf8(pkgs[i]), prefix_key(b)));
        } else if first_starting(pkgs, comm) is Some {
            let rest = p.skip(comm.len() as int);
            assert(p =~= comm + rest);
            lemma_encode_concat(comm, rest);
            assert(prefix_key(name) =~= prefix_key(b));
            assert(is_key_of(utf8::encode_utf8(pkgs[i]), prefix_key(b)));
        } else {
            let front = p.take(p.len() - comm.len());
            assert(p =~= front + comm);
            lemma_encode_concat(front, comm);
            assert(suffix_key(name) =~= suffix_key(b));
            assert(is_key_of(utf8::encode_utf8(pkgs[i]), suffix_key(b)));
        }
    }
}

/// Keys in ascending order are determined by which keys they are.
proof fn lemma_ascending_is_unique(a: Seq<[u8; KEY_LEN]>, b: Seq<[u8; KEY_LEN]>, n: nat)
    requires
        is_ascending(a),
        is_ascending(b),
        forall|key: Seq<u8>| #[trigger] has_key(a, key) <==> has_key(b, key),
        n <= a.len(),
        n <= b.len(),
    ensures
        forall|i: int| 0 <= i < n ==> (#[trigger] a[i])@ == b[i]@,
    decreases n,
{
    if n > 0 {
        lemma_ascending_is_unique(a, b, (n - 1) as nat);
        let k = n - 1;
        lemma_not_before(a, b, k);
        lemma_not_before(b, a, k);
        if a[k]@ != b[k]@ {
            lemma_precedes_total(a[k]@, b[k]@);
        }
    }
}

/// Where `a` and `b` hold the same keys and agree below `k`, the key at `k` of `a`
/// does not come before that of `b`.
proof fn lemma_not_before(a: Seq<[u8; KEY_LEN]>, b: Seq<[u8; KEY_LEN]>, k: int)
    requires
        is_ascending(a),
        is_ascending(b),
        forall|key: Seq<u8>| #[trigger] has_key(a, key) ==> has_key(b, key),
        0 <= k < a.len(),
        0 <= k < b.len(),
        forall|i: int| 0 <= i < k ==> (#[trigger] a[i])@ == b[i]@,
    ensures
        !precedes(a[k]@, b[k]@),
{
    if precedes(a[k]@, b[k]@) {
        assert(has_key(a, a[k]@));
        let j = choose|j: int| 0 <= j < b.len() && (#[trigger] b[j])@ == a[k]@;
        lemma_precedes_strict(a[k]@, b[k]@);
        if j < k {
            assert(a[j]@ == b[j]@);
            lemma_precedes_strict(a[j]@, a[k]@);
        } else if j > k {
            assert(precedes(b[k]@, b[j]@));
        }
    }
}

/// Where `a` and `b` hold the same keys, `a` is no longer than `b`.
proof fn lemma_not_longer(a: Seq<[u8; KEY_LEN]>, b: Seq<[u8; KEY_LEN]>)
    requires
        is_ascending(a),
        is_ascending(b),
        forall|key: Seq<u8>| #[trigger] has_key(a, key) <==> has_key(b, key),
    ensures
        a.len() <= b.len(),
{
    if a.len() > b.len() {
        lemma_ascending_is_unique(a, b, b.len());
        let k = b.len() as int;
        assert(has_key(a, a[k]@));
        let j = choose|j: int| 0 <= j < b.len() && (#[trigger] b[j])@ == a[k]@;
        assert(a[j]@ == b[j]@);
        lemma_precedes_strict(a[j]@, a[k]@);
    }
}

/// The whitelist depends on the set of packages alone: two lists with the same
/// packages, in whatever order and however often, have the same keys in the same
/// order.
pub proof fn law_whitelist_ignores_order(
    x: Seq<Seq<char>>,
    y: Seq<Seq<char>>,
    a: Seq<[u8; KEY_LEN]>,
    b: Seq<[u8; KEY_LEN]>,
)
    requires
        forall|p: Seq<char>| x.contains(p) <==> y.contains(p),
        is_ascending(a),
        is_ascending(b),
        forall|key: Seq<u8>| #[trigger] has_key(a, key) <==> is_whitelisted(x, key),
        forall|key: Seq<u8>| #[trigger] has_key(b, key) <==> is_whitelisted(y, key),
    ensures
        a.len() == b.len(),
        forall|i: int| 0 <= i < a.len() ==> (#[trigger] a[i])@ == b[i]@,
{
    assert forall|key: Seq<u8>| is_whitelisted(x, key) <==> is_whitelisted(y, key) by {
        if is_whitelisted(x, key) {
            let i = choose|i: int|
                0 <= i < x.len() && is_key_of(utf8::encode_utf8(#[trigger] x[i]), key);
            assert(x.contains(x[i]));
            assert(y[y.index_of(x[i])] == x[i]);
        }
        if is_whitelisted(y, key) {
            let i = choose|i: int|
                0 <= i < y.len() && is_key_of(utf8::encode_utf8(#[trigger] y[i]), key);
            assert(y.contains(y[i]));
            assert(x[x.index_of(y[i])] == y[i]);
        }
    }
    lemma_not_longer(a, b);
    lemma_not_longer(b, a);
    lemma_ascending_is_unique(a, b, a.len());
}

/// What is to be done with the probes' whitelist.
pub enum CommMapPlan {
    /// Nothing: no probes are loaded.
    Leave,
    /// The probes are to be loaded anew with a larger whitelist.
    Reload,
    /// The whitelist is to be emptied and given these keys.
    Fill { keys: Vec<[u8; KEY_LEN]> },
}

/// Decides what is to be done so that the probes' whitelist, which has room for
/// `comm_capacity` keys, holds the keys of `pkgs`. `loaded` says whether there are
/// any probes.
pub fn comm_map_init(loaded: bool, pkgs: &Vec<String>, comm_capacity: u32) -> (plan: CommMapPlan)
    ensures
        plan is Leave <==> !loaded,
        loaded ==> exists|keys: Seq<[u8; KEY_LEN]>|
            #![trigger is_ascending(keys)]
            {
                &&& is_ascending(keys)
                &&& forall|key: Seq<u8>| #[trigger]
                    has_key(keys, key) <==> is_whitelisted(text::string_views(pkgs@), key)
                &&& plan is Reload <==> keys.len() > comm_capacity
                &&& plan matches CommMapPlan::Fill { keys: k } ==> k@ == keys
            },
{
    if !loaded {
        return CommMapPlan::Leave;
    }
    let keys = comm_keys_build(pkgs);
    assert(is_ascending(keys@));
    if keys.len() as u64 > comm_capacity as u64 {
        CommMapPlan::Reload
    } else {
        CommMapPlan::Fill { keys }
    }
}

// ---------------------------------------------------------------------------
// Events
// ---------------------------------------------------------------------------

/// A thread was started.
pub const EVENT_FORK: u32 = 1;

/// A process has a new program.
pub const EVENT_EXEC: u32 = 2;

/// A thread has a new name.
pub const EVENT_RENAME: u32 = 3;

/// A thread has ended.
pub const EVENT_EXIT: u32 = 4;

/// A process has come to the foreground.
pub const EVENT_FG: u32 = 5;

/// The control group of the process at the front of the screen. The wider group of
/// visible processes is left out: its many moves would drown those that matter.
pub const FG_CGROUP_DIR: &'static str = "/dev/cpuset/top-app";

/// Number of bytes of an event.
pub const EVENT_SIZE: usize = 28;

/// An event that a probe reports.
#[derive(Clone, Copy)]
pub struct EbpfProcEvent {
    /// Process of the thread.
    pub pid: i32,
    /// The thread.
    pub tid: i32,
    /// Its name, ended by a zero.
    pub comm: [u8; 16],
    /// Which event.
    pub event_type: u32,
}

/// The event at the front of `item`; `None` where that is too short. The process
/// and the thread come first, then the name, then the kind.
pub fn decode_event(item: &[u8], big_endian: bool) -> (out: Option<EbpfProcEvent>)
    ensures
        out is Some <==> item@.len() >= EVENT_SIZE,
        out matches Some(e) ==> {
            &&& e.pid == bytes::signed(bytes::word_at(item@, 0, big_endian))
            &&& e.tid == bytes::signed(bytes::word_at(item@, 4, big_endian))
            &&& e.comm@ == item@.subrange(8, 24)
            &&& e.event_type == bytes::word_at(item@, 24, big_endian)
        },
{
    if item.len() < EVENT_SIZE {
        return None;
    }
    let mut comm: [u8; 16] = [0;16];
    for i in 0..16
        invariant
            item@.len() >= EVENT_SIZE,
            forall|j: int| 0 <= j < i ==> #[trigger] comm@[j] == item@[8 + j],
    {
        comm[i] = item[8 + i];
    }
    assert(comm@ =~= item@.subrange(8, 24));
    Some(
        EbpfProcEvent {
            pid: read_i32(item, 0, big_endian),
            tid: read_i32(item, 4, big_endian),
            comm,
            event_type: read_u32(item, 24, big_endian),
        },
    )
}

/// The key under which the reader waits for events.
pub const RING_KEY: u64 = 0;

/// The key under which the reader waits for being told to end.
pub const WAKEUP_KEY: u64 = 1;

/// What the reader does after a wait.
#[derive(Clone, Copy, PartialEq, Eq, Structural)]
pub enum ReaderStep {
    /// Wait again.
    Retry,
    /// End.
    Stop,
    /// Take out all events, then wait again.
    Drain,
}

/// What the reader does after a wait that returned `n`. `errno` is the error of one
/// that failed, `keys` holds the keys that one that succeeded filled in. A wait
/// that a signal interrupted is repeated; being told to end comes before events.
pub fn reader_step(n: i32, errno: Option<i32>, keys: &Vec<u64>) -> (step: ReaderStep)
    requires
        n <= keys@.len(),
    ensures
        step == (if n < 0 && errno == Some(EINTR) {
            ReaderStep::Retry
        } else if n <= 0 || keys@.take(n as int).contains(WAKEUP_KEY) {
            ReaderStep::Stop
        } else {
            ReaderStep::Drain
        }),
{
    if n <= 0 {
        let interrupted = match errno {
            Some(e) => e == EINTR,
            None => false,
        };
        return if n < 0 && interrupted {
            ReaderStep::Retry
        } else {
            ReaderStep::Stop
        };
    }
    let ghost filled = keys@.take(n as int);
    for i in 0..n as usize
        invariant
            0 < n <= keys@.len(),
            filled == keys@.take(n as int),
            forall|j: int| 0 <= j < i ==> filled[j] != WAKEUP_KEY,
    {
        if keys[i] == WAKEUP_KEY {
            assert(filled[i as int] == WAKEUP_KEY);
            return ReaderStep::Stop;
        }
    }
    ReaderStep::Drain
}

/// A thread's name finds its package wherever in the configuration's list that stands.
/// A name that is listed is its own package. Any other name of fifteen bytes or more
/// finds one exactly where a listed package starts or ends with it, and one that starts
/// with it where there is such a package. A shorter name finds none.
pub proof fn law_names_find_their_packages(comm: &str, cfg: &AppConfig, out: Option<String>)
    requires
        call_ensures(comm_to_pkg, (comm, cfg), out),
    ensures
        ({
            let pkgs = cfg.pkg_set@;
            let exact = exists|i: int| 0 <= i < pkgs.len() && (#[trigger] pkgs[i])@ == comm@;
            let cut = utf8::encode_utf8(comm@).len() >= 15;
            let front = exists|i: int|
                0 <= i < pkgs.len() && stands_in_front(comm@, (#[trigger] pkgs[i])@);
            let end = exists|i: int|
                0 <= i < pkgs.len() && stands_at_the_end(comm@, (#[trigger] pkgs[i])@);
            &&& exact ==> out is Some && out->0@ == comm@
            &&& !exact ==> (out is Some <==> cut && (front || end))
            &&& !exact && out is Some ==> exists|i: int|
                0 <= i < pkgs.len() && (#[trigger] pkgs[i])@ == out->0@
            &&& !exact && out is Some && front ==> stands_in_front(comm@, out->0@)
            &&& !exact && out is Some && !front ==> stands_at_the_end(comm@, out->0@)
        }),
{
    let pkgs = cfg.pkgs();
    assert(forall|i: int| 0 <= i < pkgs.len() ==> #[trigger] pkgs[i] == cfg.pkg_set@[i]@);
    assert(forall|i: int|
        0 <= i < cfg.pkg_set@.len() ==> pkgs[i] == (#[trigger] cfg.pkg_set@[i])@);
    law_every_package_is_found(comm@, pkgs);
    if out is Some {
        assert(out.deep_view() == Some(out->0@));
    }
}

/// The reader ends where it is told to, whichever of the keys says so and whatever came
/// with it; it repeats a wait exactly where that failed because of a signal; it takes
/// out events exactly where a wait brought some and it is not told to end.
pub proof fn law_the_reader_ends_when_told(
    n: i32,
    errno: Option<i32>,
    keys: &Vec<u64>,
    step: ReaderStep,
)
    requires
        call_ensures(reader_step, (n, errno, keys), step),
        n <= keys@.len(),
    ensures
        step == ReaderStep::Retry <==> n < 0 && errno == Some(4i32),
        step == ReaderStep::Drain <==> n > 0 && forall|i: int| 0 <= i < n ==> keys@[i] != 1,
        step == ReaderStep::Stop || step == ReaderStep::Retry || step == ReaderStep::Drain,
{
    if n > 0 {
        let filled = keys@.take(n as int);
        assert(forall|i: int| 0 <= i < n ==> #[trigger] filled[i] == keys@[i]);
        if filled.contains(WAKEUP_KEY) {
            let i = filled.index_of(WAKEUP_KEY);
            assert(keys@[i] == 1);
        }
        if exists|i: int| 0 <= i < n && keys@[i] == 1 {
            let i = choose|i: int| 0 <= i < n && keys@[i] == 1;
            assert(filled[i] == WAKEUP_KEY);
        }
    }
}

/// An event is read from its first 28 bytes, whatever follows them: process and thread
/// from the first two words, the name from the sixteen bytes behind them, and the kind
/// from the last word. Anything shorter is no event.
pub proof fn law_events_are_read_from_28_bytes(
    item: &[u8],
    big_endian: bool,
    out: Option<EbpfProcEvent>,
)
    requires
        call_ensures(decode_event, (item, big_endian), out),
    ensures
        out is Some <==> item@.len() >= 28,
        out matches Some(e) ==> {
            &&& e.pid == bytes::signed(bytes::word_at(item@, 0, big_endian))
            &&& e.tid == bytes::signed(bytes::word_at(item@, 4, big_endian))
            &&& forall|i: int| 0 <= i < 16 ==> #[trigger] e.comm@[i] == item@[8 + i]
            &&& e.event_type == bytes::word_at(item@, 24, big_endian)
        },
{
}

/// The whitelist holds the key of every package, and is left alone only where there are
/// no probes; it is loaded anew exactly where it has more keys than room.
pub proof fn law_whitelists_hold_every_package(
    loaded: bool,
    pkgs: &Vec<String>,
    comm_capacity: u32,
    plan: CommMapPlan,
    built: Vec<[u8; KEY_LEN]>,
    i: int,
)
    requires
        call_ensures(comm_map_init, (loaded, pkgs, comm_capacity), plan),
        call_ensures(comm_keys_build, (pkgs,), built),
        0 <= i < pkgs@.len(),
        utf8::encode_utf8(pkgs@[i]@).len() > 0,
    ensures
        plan is Leave <==> !loaded,
        plan is Reload <==> loaded && built@.len() > comm_capacity,
        plan matches CommMapPlan::Fill { keys } ==> keys@.len() == built@.len() && forall|j: int|
            0 <= j < keys@.len() ==> (#[trigger] keys@[j])@ == built@[j]@,
        has_key(built@, prefix_key(utf8::encode_utf8(pkgs@[i]@))),
        utf8::encode_utf8(pkgs@[i]@).len() > 8 ==> has_key(
            built@,
            suffix_key(utf8::encode_utf8(pkgs@[i]@)),
        ),
{
    let names = text::string_views(pkgs@);
    assert(names[i] == pkgs@[i]@);
    let b = utf8::encode_utf8(names[i]);
    assert(is_key_of(b, prefix_key(b)));
    if loaded {
        let keys = choose|keys: Seq<[u8; KEY_LEN]>|
            #![trigger is_ascending(keys)]
            {
                &&& is_ascending(keys)
                &&& forall|key: Seq<u8>| #[trigger]
                    has_key(keys, key) <==> is_whitelisted(names, key)
                &&& plan is Reload <==> keys.len() > comm_capacity
                &&& plan matches CommMapPlan::Fill { keys: k } ==> k@ == keys
            };
        law_whitelist_ignores_order(names, names, keys, built@);
    }
}

} // verus!
