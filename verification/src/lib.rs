//! Core of a hosts-file based accelerator for a fixed set of well-known
//! domains: a registry of candidate addresses, a best-address selector fed by
//! latency probes, a scan-result store, and a transactional editor for the
//! managed block inside the system hosts file.
//!
//! Everything here is pure logic over plain values; reading the clock,
//! probing a TCP port and touching the file system are left to callers.

pub mod hosts;
pub mod logger;
pub mod network;
pub mod text;
