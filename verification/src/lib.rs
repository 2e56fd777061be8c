//! Dynamic debug ("dyndbg") control plane of a kernel logger, with the
//! static-key patch planner, the trace and kmsg ring buffers and the procfs
//! command language that drives them.
//!
//! Everything here is plain, verified logic: global kernel state, hardware
//! access and I/O live outside this crate and call in with explicit values.
#![allow(unused_imports)]

pub mod matching;
pub mod descriptor;
pub mod rules;
pub mod static_patch;
pub mod static_key;
pub mod static_key_fallback;
pub mod index;
pub mod state;
pub mod event_ring;
pub mod dyndbg_trace;
pub mod sched_trace;
pub mod kmsg;
pub mod render;
pub mod text;
pub mod command;
pub mod procfs;
pub mod bench;
pub mod syslog;
