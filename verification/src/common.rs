//! Dimensions shared by every module.

use vstd::prelude::*;

verus! {

/// Number of CPUs that a set can hold.
pub const CPU_SETSIZE: usize = 1024;

/// Number of bits in one word of a set.
pub const CPU_WORD_BITS: usize = 64;

/// Number of words in a set.
pub const CPU_WORDS: usize = 16;

/// Error number of a call on a thread that does not exist.
pub const ESRCH: i32 = 3;

/// Error number of a call that a signal interrupted.
pub const EINTR: i32 = 4;

/// Error number of a call that makes what is already there.
pub const EEXIST: i32 = 17;

/// Error number of a call with an argument that the kernel does not accept.
pub const EINVAL: i32 = 22;

} // verus!
