//! Numbers in the byte layout of kernel structures.

use vstd::prelude::*;

verus! {

/// The unsigned number in the four bytes of `b` from `at` on, the most significant
/// byte first where `big_endian` is on, else last.
pub open spec fn word_at(b: Seq<u8>, at: int, big_endian: bool) -> int {
    if big_endian {
        b[at] * 0x1000000 + b[at + 1] * 0x10000 + b[at + 2] * 0x100 + b[at + 3]
    } else {
        b[at] + b[at + 1] * 0x100 + b[at + 2] * 0x10000 + b[at + 3] * 0x1000000
    }
}

/// The signed number with the same 32 bits as `v`.
pub open spec fn signed(v: int) -> int {
    if v < 0x8000_0000 {
        v
    } else {
        v - 0x1_0000_0000
    }
}

/// The unsigned number in the four bytes of `b` from `at` on.
pub fn read_u32(b: &[u8], at: usize, big_endian: bool) -> (v: u32)
    requires
        at + 4 <= b@.len(),
    ensures
        v == word_at(b@, at as int, big_endian),
{
    let b0 = b[at] as u32;
    let b1 = b[at + 1] as u32;
    let b2 = b[at + 2] as u32;
    let b3 = b[at + 3] as u32;
    if big_endian {
        b0 * 0x1000000 + b1 * 0x10000 + b2 * 0x100 + b3
    } else {
        b0 + b1 * 0x100 + b2 * 0x10000 + b3 * 0x1000000
    }
}

/// The signed number in the four bytes of `b` from `at` on.
pub fn read_i32(b: &[u8], at: usize, big_endian: bool) -> (v: i32)
    requires
        at + 4 <= b@.len(),
    ensures
        v == signed(word_at(b@, at as int, big_endian)),
{
    let w = read_u32(b, at, big_endian) as i64;
    if w < 0x8000_0000 {
        w as i32
    } else {
        (w - 0x1_0000_0000) as i32
    }
}

/// A number is read from the bytes that make it up, wherever they stand: `n` is the
/// sum of its bytes, each weighing 256 times the one before it, from the last byte on
/// in one byte order and from the first on in the other.
pub proof fn law_words_are_read_from_their_bytes(
    front: Seq<u8>,
    rest: Seq<u8>,
    b0: u8,
    b1: u8,
    b2: u8,
    b3: u8,
)
    ensures
        ({
            let n = b0 + 256 * (b1 + 256 * (b2 + 256 * b3));
            &&& word_at(front + seq![b0, b1, b2, b3] + rest, front.len() as int, false) == n
            &&& word_at(front + seq![b3, b2, b1, b0] + rest, front.len() as int, true) == n
            &&& 0 <= n < 0x1_0000_0000
        }),
{
    let at = front.len() as int;
    let s = front + seq![b0, b1, b2, b3] + rest;
    let t = front + seq![b3, b2, b1, b0] + rest;
    assert(s[at] == b0 && s[at + 1] == b1 && s[at + 2] == b2 && s[at + 3] == b3);
    assert(t[at] == b3 && t[at + 1] == b2 && t[at + 2] == b1 && t[at + 3] == b0);
}

/// The signed number differs from the unsigned one by a multiple of two to the power
/// of 32, and fits 32 bits with a sign.
pub proof fn law_signs_are_in_the_top_bit(v: int)
    requires
        0 <= v < 0x1_0000_0000,
    ensures
        i32::MIN <= signed(v) <= i32::MAX,
        signed(v) == v || signed(v) == v - 0x1_0000_0000,
{
}

} // verus!
