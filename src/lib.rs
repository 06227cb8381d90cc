//! The decision core of an embedded Wayland server that runs inside a host
//! engine's frame loop: serial numbers, the global registry with its bounded
//! destroy queue, the client table, the dispatch loop's transitions and the
//! per-frame surface passes.

pub mod serial;
pub mod protocol;
pub mod runs;
pub mod frame;
pub mod backend;
