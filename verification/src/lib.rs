//! Multi-WAN policy-routing core: health monitoring with hysteresis, policy
//! selection, firewall rule compilation, and path-race arbitration.
//!
//! Everything here is pure logic over plain values.  The surrounding program
//! performs the probes, runs the compiled commands, and feeds the observed
//! outcomes back into these state machines.

pub mod config;
pub mod daemon;
pub mod health_check;
pub mod interface_monitor;
pub mod load_balancer;
pub mod mptcp;
pub mod nftables;
pub mod udp_race;
