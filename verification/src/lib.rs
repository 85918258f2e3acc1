//! Verified core of a menu-bar network latency monitor.
//!
//! The library holds the monitoring engine's logic: bounded per-target
//! ping history with windowed statistics, the target registry and its
//! primary-target rules, rate-limited notification gating, public network
//! identity tracking, auxiliary site uptime tracking, the tray render
//! reducer, the multi-cadence tick planner, and the persisted snapshot
//! codec. All I/O (probing sockets, the system clock, disk, the tray
//! itself) lives outside and hands the library plain values.
#![verifier::loop_isolation(false)]

pub mod strutil;
pub mod tray;
pub mod gate;
pub mod history;
pub mod identity;
pub mod site;
pub mod probe;
pub mod scheduler;
pub mod codec;
pub mod decode;
pub mod engine;
