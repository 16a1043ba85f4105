//! Building blocks for controlling a traced Linux process on x86-64: the
//! hardware breakpoint table and its debug-register encoding, the planning of
//! batched memory transfers across pages of mixed protection, the register
//! set-up of an injected syscall, the reading of memory-map lines, and symbol
//! table entries with demangled names.
//!
//! Nothing here talks to the kernel. Every operation takes the values that
//! were read from the debuggee and returns the values to write back.

pub mod hardware_breakpoint;
pub mod target;
pub mod memory;
pub mod memory_map;
pub mod words;
pub mod batch;
pub mod symbol;
pub mod syscall;
pub mod thread;
