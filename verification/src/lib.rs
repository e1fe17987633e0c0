//! Core of a per-process/per-connection bandwidth monitor: a mutex-friendly
//! traffic aggregator with atomic snapshot-and-reset, a pause-aware stopwatch,
//! view cycling, a DNS name cache, the keyboard-event state machine and the
//! display-cycle pacing rules. Packet capture, socket enumeration, DNS
//! resolution and terminal drawing are collaborators that live outside this
//! library; every decision the orchestration makes is verified here.

pub mod arith;
pub mod display;
pub mod dns;
pub mod input;
pub mod network;
pub mod stopwatch;
pub mod ui;

use vstd::prelude::*;
use crate::network::{Connection, LocalSocket};

verus! {

/// Command-line options, as plain values; the flag parsing itself is done by
/// the embedding program.
pub struct Opt {
    /// The network interface to listen on, eg. eth0
    pub interface: Option<String>,
    /// Machine friendlier output
    pub raw: bool,
    /// Do not attempt to resolve IPs to their hostnames
    pub no_resolve: bool,
    pub render_opts: RenderOpts,
    /// Show DNS queries
    pub show_dns: bool,
}

/// Which tables the UI shows, and whether totals are cumulative.
#[derive(Clone, Copy, PartialEq, Eq, Structural, Debug)]
pub struct RenderOpts {
    /// Show processes table only
    pub processes: bool,
    /// Show connections table only
    pub connections: bool,
    /// Show remote addresses table only
    pub addresses: bool,
    /// Show total (cumulative) usages
    pub total_utilization: bool,
}

/// A point-in-time view from the OS collaborator: which process owns each
/// local socket, and the list of currently active connections. Pulled fresh
/// once per display cycle; the core never caches it beyond the cycle.
pub struct OpenSockets {
    pub sockets_to_procs: Vec<(LocalSocket, String)>,
    pub connections: Vec<Connection>,
}

} // verus!
