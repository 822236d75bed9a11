//! Noticing that the configuration file has changed.

use vstd::prelude::*;

use crate::bytes;
use crate::bytes::read_u32;

verus! {

/// A file that was open for writing was closed.
pub const IN_CLOSE_WRITE: u32 = 0x8;

/// The watched file was deleted.
pub const IN_DELETE_SELF: u32 = 0x400;

/// The watched file was moved.
pub const IN_MOVE_SELF: u32 = 0x800;

/// What the configuration file is watched for.
pub const WATCH_MASK: u32 = 0xc08;

/// Number of bytes of an event before its name.
pub const EVENT_HEADER: usize = 16;

/// Least time between two reloads, in milliseconds.
pub const RELOAD_INTERVAL_MS: u64 = 5000;

// ---------------------------------------------------------------------------
// Events
// ---------------------------------------------------------------------------

/// The kinds of the events in `b` from `at` on, in order. An event is a header of
/// [`EVENT_HEADER`] bytes, whose second word is the kind and whose last is the
/// length of the name that follows it.
pub open spec fn event_masks(b: Seq<u8>, at: int, big_endian: bool) -> Seq<u32>
    decreases
        if at <= b.len() {
            b.len() + 1 - at
        } else {
            0
        },
{
    if at < 0 || at + EVENT_HEADER > b.len() {
        seq![]
    } else {
        let mask = bytes::word_at(b, at + 4, big_endian) as u32;
        let len = bytes::word_at(b, at + 12, big_endian);
        seq![mask] + event_masks(b, at + EVENT_HEADER + len, big_endian)
    }
}

/// Whether an event of this kind calls for a new watch: what was watched is gone.
pub open spec fn ends_watch(mask: u32) -> bool {
    mask & IN_DELETE_SELF != 0 || mask & IN_MOVE_SELF != 0
}

/// Whether an event of this kind calls for a reload.
pub open spec fn calls_for_reload(mask: u32) -> bool {
    mask & IN_CLOSE_WRITE != 0 || ends_watch(mask)
}

/// Whether one of `masks` calls for a new watch.
pub open spec fn some_end_watch(masks: Seq<u32>) -> bool {
    exists|i: int| 0 <= i < masks.len() && ends_watch(#[trigger] masks[i])
}

/// Whether one of `masks` calls for a reload.
pub open spec fn some_call_for_reload(masks: Seq<u32>) -> bool {
    exists|i: int| 0 <= i < masks.len() && calls_for_reload(#[trigger] masks[i])
}

/// What `masks` call for: 2 for a reload and a new watch, 1 for a reload alone.
pub open spec fn verdict(masks: Seq<u32>) -> Option<u8> {
    if some_end_watch(masks) {
        Some(2)
    } else if some_call_for_reload(masks) {
        Some(1)
    } else {
        None
    }
}

/// What the events call for that were read from `fd` into `buf`: `Some(1)` for a
/// reload, `Some(2)` for a reload and a new watch, `None` where there is nothing
/// to do. `n` is what the read returned.
pub fn read(fd: i32, n: isize, buf: &[u8], big_endian: bool) -> (out: Option<u8>)
    requires
        n <= buf@.len(),
    ensures
        out == (if fd < 0 || n <= 0 {
            None
        } else {
            verdict(event_masks(buf@.take(n as int), 0, big_endian))
        }),
{
    if fd < 0 || n <= 0 {
        return None;
    }
    let end = n as usize;
    let ghost all = event_masks(buf@.take(n as int), 0, big_endian);
    let ghost mut done: Seq<u32> = Seq::empty();
    let mut off: usize = 0;
    let mut reload = false;
    let mut rewatch = false;
    assert(all =~= done + all);
    while off <= end && end - off >= EVENT_HEADER
        invariant
            end == n,
            end <= buf@.len(),
            all == done + event_masks(buf@.take(n as int), off as int, big_endian),
            reload == some_call_for_reload(done),
            rewatch == some_end_watch(done),
        decreases end + 1 - off,
    {
        let mask = read_u32(buf, off + 4, big_endian);
        let len = read_u32(buf, off + 12, big_endian);
        let ghost before = done;
        proof {
            let b = buf@.take(n as int);
            assert(bytes::word_at(b, off + 4, big_endian) == mask);
            assert(bytes::word_at(b, off + 12, big_endian) == len);
            done = done.push(mask);
            assert(all =~= done + event_masks(b, off + EVENT_HEADER + len, big_endian));
            assert(mask & (0x400u32 | 0x800u32) != 0 <==> mask & 0x400u32 != 0 || mask & 0x800u32
                != 0) by (bit_vector);
            lemma_one_more(before, mask);
        }
        if mask & IN_CLOSE_WRITE != 0 {
            reload = true;
        }
        if mask & (IN_DELETE_SELF | IN_MOVE_SELF) != 0 {
            reload = true;
            rewatch = true;
        }
        let rest = end - off - EVENT_HEADER;
        if len as u64 > rest as u64 {
            proof {
                assert(event_masks(buf@.take(n as int), off + EVENT_HEADER + len, big_endian)
                    =~= Seq::<u32>::empty());
            }
            off = end;
        } else {
            off = off + EVENT_HEADER + len as usize;
        }
    }
    proof {
        assert(all =~= done);
        lemma_ends_call_for_reload(done);
    }
    if reload {
        Some(if rewatch {
            2
        } else {
            1
        })
    } else {
        None
    }
}

/// One more event counts along with those before it.
proof fn lemma_one_more(before: Seq<u32>, mask: u32)
    ensures
        some_end_watch(before.push(mask)) == (some_end_watch(before) || ends_watch(mask)),
        some_call_for_reload(before.push(mask)) == (some_call_for_reload(before)
            || calls_for_reload(mask)),
{
    let after = before.push(mask);
    assert(after[before.len() as int] == mask);
    assert(forall|i: int| 0 <= i < before.len() ==> after[i] == #[trigger] before[i]);
    if some_end_watch(before) {
        let i = choose|i: int| 0 <= i < before.len() && ends_watch(#[trigger] before[i]);
        assert(ends_watch(after[i]));
    }
    if some_call_for_reload(before) {
        let i = choose|i: int| 0 <= i < before.len() && calls_for_reload(#[trigger] before[i]);
        assert(calls_for_reload(after[i]));
    }
}

/// Where a new watch is called for, so is a reload.
proof fn lemma_ends_call_for_reload(masks: Seq<u32>)
    ensures
        some_end_watch(masks) ==> some_call_for_reload(masks),
{
    if some_end_watch(masks) {
        let i = choose|i: int| 0 <= i < masks.len() && ends_watch(#[trigger] masks[i]);
        assert(calls_for_reload(masks[i]));
    }
}

/// What the events of one read call for, whatever their order and whatever stands
/// around them: a new watch exactly where any one of them says that the file was
/// deleted or moved; else a reload exactly where any one says that it was closed after
/// writing; else nothing.
pub proof fn law_any_event_counts(masks: Seq<u32>)
    ensures
        verdict(masks) == Some(2u8) <==> exists|i: int|
            0 <= i < masks.len() && ((#[trigger] masks[i]) & 0x400 != 0 || masks[i] & 0x800 != 0),
        verdict(masks) is Some <==> exists|i: int|
            0 <= i < masks.len() && ((#[trigger] masks[i]) & 0x8 != 0 || masks[i] & 0x400 != 0
                || masks[i] & 0x800 != 0),
        verdict(masks) is None || verdict(masks) == Some(1u8) || verdict(masks) == Some(2u8),
{
    if some_end_watch(masks) {
        let i = choose|i: int| 0 <= i < masks.len() && ends_watch(#[trigger] masks[i]);
        assert(calls_for_reload(masks[i]));
    }
    if some_call_for_reload(masks) {
        let i = choose|i: int| 0 <= i < masks.len() && calls_for_reload(#[trigger] masks[i]);
        assert(masks[i] & 0x8 != 0 || masks[i] & 0x400 != 0 || masks[i] & 0x800 != 0);
    }
    if exists|i: int|
        0 <= i < masks.len() && ((#[trigger] masks[i]) & 0x8 != 0 || masks[i] & 0x400 != 0
            || masks[i] & 0x800 != 0) {
        let i = choose|i: int|
            0 <= i < masks.len() && ((#[trigger] masks[i]) & 0x8 != 0 || masks[i] & 0x400 != 0
                || masks[i] & 0x800 != 0);
        assert(calls_for_reload(masks[i]));
    }
    if exists|i: int|
        0 <= i < masks.len() && ((#[trigger] masks[i]) & 0x400 != 0 || masks[i] & 0x800 != 0) {
        let i = choose|i: int|
            0 <= i < masks.len() && ((#[trigger] masks[i]) & 0x400 != 0 || masks[i] & 0x800 != 0);
        assert(ends_watch(masks[i]));
    }
}

/// What two batches of events call for together is the stronger of what each calls
/// for alone: neither order nor company takes anything back.
pub proof fn law_events_add_up(a: Seq<u32>, b: Seq<u32>)
    ensures
        verdict(a + b) == (if verdict(a) == Some(2u8) || verdict(b) == Some(2u8) {
            Some(2u8)
        } else if verdict(a) is Some || verdict(b) is Some {
            Some(1u8)
        } else {
            None
        }),
        verdict(b + a) == verdict(a + b),
{
    lemma_batches(a, b);
    lemma_batches(b, a);
    lemma_ends_call_for_reload(a);
    lemma_ends_call_for_reload(b);
}

/// What holds of one of two batches holds of both together.
proof fn lemma_batches(a: Seq<u32>, b: Seq<u32>)
    ensures
        some_end_watch(a + b) == (some_end_watch(a) || some_end_watch(b)),
        some_call_for_reload(a + b) == (some_call_for_reload(a) || some_call_for_reload(b)),
{
    let s = a + b;
    assert(forall|i: int| 0 <= i < a.len() ==> s[i] == #[trigger] a[i]);
    assert(forall|i: int| 0 <= i < b.len() ==> s[a.len() + i] == #[trigger] b[i]);
    if some_end_watch(a) {
        let i = choose|i: int| 0 <= i < a.len() && ends_watch(#[trigger] a[i]);
        assert(ends_watch(s[i]));
    }
    if some_end_watch(b) {
        let i = choose|i: int| 0 <= i < b.len() && ends_watch(#[trigger] b[i]);
        assert(ends_watch(s[a.len() + i]));
    }
    if some_call_for_reload(a) {
        let i = choose|i: int| 0 <= i < a.len() && calls_for_reload(#[trigger] a[i]);
        assert(calls_for_reload(s[i]));
    }
    if some_call_for_reload(b) {
        let i = choose|i: int| 0 <= i < b.len() && calls_for_reload(#[trigger] b[i]);
        assert(calls_for_reload(s[a.len() + i]));
    }
    if some_end_watch(s) {
        let i = choose|i: int| 0 <= i < s.len() && ends_watch(#[trigger] s[i]);
        if i < a.len() {
            assert(ends_watch(a[i]));
        } else {
            assert(ends_watch(b[i - a.len()]));
        }
    }
    if some_call_for_reload(s) {
        let i = choose|i: int| 0 <= i < s.len() && calls_for_reload(#[trigger] s[i]);
        if i < a.len() {
            assert(calls_for_reload(a[i]));
        } else {
            assert(calls_for_reload(b[i - a.len()]));
        }
    }
}

/// Events are read one behind the other: an event of sixteen bytes and a name, with
/// more events behind it, is read as its kind and then those. Its kind is the second
/// of its four words, and the length of its name the fourth. Fewer than sixteen bytes
/// are no event.
pub proof fn law_events_follow_each_other(head: Seq<u8>, name: Seq<u8>, rest: Seq<u8>, big: bool)
    requires
        head.len() == 16,
        bytes::word_at(head, 12, big) == name.len(),
    ensures
        event_masks(head + name + rest, 0, big) == seq![bytes::word_at(head, 4, big) as u32]
            + event_masks(rest, 0, big),
        forall|b: Seq<u8>| b.len() < 16 ==> #[trigger] event_masks(b, 0, big) == Seq::<
            u32,
        >::empty(),
{
    let all = head + name + rest;
    assert(bytes::word_at(all, 4, big) == bytes::word_at(head, 4, big));
    assert(bytes::word_at(all, 12, big) == bytes::word_at(head, 12, big));
    lemma_masks_shift(all, head.len() + name.len(), 0, big);
    assert(all.skip((head.len() + name.len()) as int) =~= rest);
}

/// Events behind a number of bytes are those of what is left without these bytes.
proof fn lemma_masks_shift(b: Seq<u8>, n: nat, at: int, big: bool)
    requires
        0 <= at,
        n <= b.len(),
    ensures
        event_masks(b, n + at, big) == event_masks(b.skip(n as int), at, big),
    decreases
        if at <= b.len() {
            b.len() + 1 - at
        } else {
            0
        },
{
    let c = b.skip(n as int);
    if at + EVENT_HEADER <= c.len() {
        assert(bytes::word_at(b, n + at + 4, big) == bytes::word_at(c, at + 4, big));
        assert(bytes::word_at(b, n + at + 12, big) == bytes::word_at(c, at + 12, big));
        let len = bytes::word_at(c, at + 12, big);
        assert(len >= 0);
        lemma_masks_shift(b, n, at + EVENT_HEADER + len, big);
    }
}

/// The file is watched for exactly the kinds of events that call for a reload.
pub proof fn law_watched_kinds_call_for_reload(mask: u32)
    ensures
        calls_for_reload(mask) <==> mask & WATCH_MASK != 0,
{
    assert(mask & 0xc08u32 != 0 <==> mask & 0x8u32 != 0 || mask & 0x400u32 != 0 || mask & 0x800u32
        != 0) by (bit_vector);
}

// ---------------------------------------------------------------------------
// The watch
// ---------------------------------------------------------------------------

/// The watch's descriptor after it was set up, -1 where that failed, and whether
/// `fd` is to be closed on that account. `fd` is the new descriptor, `wd` what
/// adding the file returned, or `None` where its path cannot be handed over.
pub fn init(fd: i32, wd: Option<i32>) -> (out: (i32, bool))
    ensures
        out == (if fd < 0 {
            (-1i32, false)
        } else if wd is Some && wd->0 >= 0 {
            (fd, false)
        } else {
            (-1i32, true)
        }),
{
    if fd < 0 {
        return (-1, false);
    }
    match wd {
        Some(w) => if w >= 0 {
            (fd, false)
        } else {
            (-1, true)
        },
        None => (-1, true),
    }
}

/// The watch's descriptor after the file was added again, -1 where that failed,
/// and whether `fd` is to be closed on that account. `wd` is what adding the file
/// returned, or `None` where its path cannot be handed over, which leaves the watch
/// as it is.
pub fn rewatch(fd: i32, wd: Option<i32>) -> (out: (i32, bool))
    ensures
        out == (if fd >= 0 && wd is Some && wd->0 < 0 {
            (-1i32, true)
        } else {
            (fd, false)
        }),
{
    if fd < 0 {
        return (fd, false);
    }
    match wd {
        Some(w) => if w < 0 {
            (-1, true)
        } else {
            (fd, false)
        },
        None => (fd, false),
    }
}

/// Whether a look at the file is due, `elapsed_ms` after the last reload.
pub fn check_due(elapsed_ms: u64) -> (b: bool)
    ensures
        b == (elapsed_ms >= RELOAD_INTERVAL_MS),
{
    elapsed_ms >= RELOAD_INTERVAL_MS
}

/// Whether the file has changed, and whether it is to be watched anew.
/// `elapsed_ms` is the time since the last reload; before [`check_due`] holds
/// nothing counts as a change. `event` is what [`read`] says of the watch, whose
/// descriptor is `fd`. Without a watch the file's time of change decides: `mtime`,
/// where it could be read, against `cfg_mtime`, that of the loaded configuration,
/// both in nanoseconds.
pub fn check_changed(
    elapsed_ms: u64,
    fd: i32,
    event: Option<u8>,
    mtime: Option<i128>,
    cfg_mtime: i128,
) -> (out: (bool, bool))
    ensures
        out.0 == (elapsed_ms >= RELOAD_INTERVAL_MS && (event is Some || (fd < 0 && mtime is Some
            && mtime->0 > cfg_mtime))),
        out.1 == (elapsed_ms >= RELOAD_INTERVAL_MS && event == Some(2u8)),
{
    if !check_due(elapsed_ms) {
        return (false, false);
    }
    if let Some(ev) = event {
        return (true, ev == 2);
    }
    if fd < 0 {
        if let Some(mt) = mtime {
            return (mt > cfg_mtime, false);
        }
    }
    (false, false)
}

/// Nothing counts as a change within five seconds of a reload. After that an event is a
/// change, whichever it is, and the one that stands for a file that is gone calls for a
/// new watch, which nothing else does. Without an event the file has changed exactly
/// where there is no watch and it is newer than what was loaded.
pub proof fn law_changes_are_events_or_newer_files(
    elapsed_ms: u64,
    fd: i32,
    event: Option<u8>,
    mtime: Option<i128>,
    cfg_mtime: i128,
    out: (bool, bool),
)
    requires
        call_ensures(check_changed, (elapsed_ms, fd, event, mtime, cfg_mtime), out),
    ensures
        elapsed_ms < 5000 ==> out == (false, false),
        elapsed_ms >= 5000 && event is Some ==> out.0,
        elapsed_ms >= 5000 && event is None ==> out.0 == (fd < 0 && mtime is Some && mtime->0
            > cfg_mtime),
        out.1 <==> elapsed_ms >= 5000 && event == Some(2u8),
{
}

/// A read calls for a new watch exactly where any of its events says that the file was
/// deleted or moved, and for a reload exactly where any calls for one. Without a watch
/// or bytes nothing is called for.
pub proof fn law_reads_say_what_their_events_call_for(
    fd: i32,
    n: isize,
    buf: &[u8],
    big_endian: bool,
    out: Option<u8>,
)
    requires
        call_ensures(read, (fd, n, buf, big_endian), out),
        n <= buf@.len(),
    ensures
        fd < 0 || n <= 0 ==> out is None,
        fd >= 0 && n > 0 ==> {
            let masks = event_masks(buf@.take(n as int), 0, big_endian);
            &&& out == Some(2u8) <==> exists|i: int|
                0 <= i < masks.len() && ((#[trigger] masks[i]) & 0x400 != 0 || masks[i] & 0x800
                    != 0)
            &&& out is Some <==> exists|i: int|
                0 <= i < masks.len() && ((#[trigger] masks[i]) & 0x8 != 0 || masks[i] & 0x400 != 0
                    || masks[i] & 0x800 != 0)
        },
{
    if fd >= 0 && n > 0 {
        law_any_event_counts(event_masks(buf@.take(n as int), 0, big_endian));
    }
}

/// A watch is set up where the descriptor and the file were had, and otherwise there is
/// none; a descriptor that is left over is closed. Setting it up again drops a watch
/// only where adding the file failed.
pub proof fn law_watches_need_descriptor_and_file(
    fd: i32,
    wd: Option<i32>,
    first: (i32, bool),
    again: (i32, bool),
)
    requires
        call_ensures(init, (fd, wd), first),
        call_ensures(rewatch, (fd, wd), again),
    ensures
        first.0 == (if fd >= 0 && wd is Some && wd->0 >= 0 {
            fd
        } else {
            -1i32
        }),
        first.1 == (fd >= 0 && first.0 == -1),
        again.0 == (if fd >= 0 && wd is Some && wd->0 < 0 {
            -1i32
        } else {
            fd
        }),
        again.1 == (again.0 != fd),
{
}

} // verus!
