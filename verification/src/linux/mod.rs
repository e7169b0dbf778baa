//! The rules of the PipeWire backends: which streams a process capture links to and how their
//! ports pair up, which nodes count as devices, what a device watcher reports, and how a
//! buffer becomes samples. The connection to the daemon is outside.

pub mod backends;
pub mod capture;
pub mod devices;
pub mod graph;
pub mod pair;
pub mod props;
pub mod watch;
