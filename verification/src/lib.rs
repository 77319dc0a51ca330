//! Client-to-process lifecycle manager and IO-readiness dispatcher.
//!
//! A pub/sub transport delivers subscribe / unsubscribe / data messages from
//! remote peers; this library decides when a child process is spawned for a
//! peer, how payload bytes are routed to and from it, and how every opened
//! descriptor is released exactly once.  The library itself performs no I/O:
//! a thin runtime asks it what to do, carries out the spawns, writes, reads
//! and descriptor (un)registrations, and reports the outcomes back.

pub mod dispatch;
pub mod laws;
pub mod label;
pub mod msg;
pub mod registry;
