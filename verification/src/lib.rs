//! Verified core of a local-network discovery engine.
//!
//! The library derives scannable IPv4 subnets from interface addresses,
//! plans rate-shaped probe batches (ICMP and TCP connect), aggregates
//! probe outcomes into a per-subnet set of online hosts, and renders a
//! hierarchical report tree.  Addresses are carried as plain `u32`
//! values in network order; all I/O (interface enumeration, the probes
//! themselves, printing) lives outside the library.

pub mod agg;
pub mod args;
pub mod config;
pub mod scan;
pub mod sched;
pub mod subnet;
pub mod textfmt;
