//! Thread-to-CPU binding: CPU sets, core topology, the per-thread affinity
//! cache and the decisions that drive the kernel calls around them.

pub mod bind;
pub mod bpf;
pub mod bytes;
pub mod common;
pub mod config;
pub mod cpuset;
pub mod inotify;
pub mod probe;
pub mod proccache;
pub mod process;
pub mod sync;
pub mod text;
pub mod topology;
