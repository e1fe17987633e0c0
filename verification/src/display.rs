//! The display loop's per-cycle decisions: which IPs to submit for
//! resolution, whether the rows are refreshed (never while paused), and how
//! long to sleep before the next cycle. The loop itself — the snapshot under
//! the aggregator lock, the terminal draw, the interruptible sleep — is run
//! by the embedding program with the values computed here.

use vstd::prelude::*;
use crate::OpenSockets;
use crate::dns::{spec_unresolved, unresolved_ips, IpTable};
use crate::network::Utilization;
use crate::ui::{rows_reflect, UiState};

verus! {

/// Target display cadence, in milliseconds.
pub const DISPLAY_DELTA: u64 = 1000;

/// How long the display loop should sleep after a render: the remainder of
/// the cadence, or nothing when the render met or exceeded it — the next
/// iteration then starts immediately, with no catch-up or frame skipping.
pub fn sleep_after_render(render_duration: u64) -> (r: Option<u64>)
    ensures
        render_duration < DISPLAY_DELTA ==> r == Some((DISPLAY_DELTA - render_duration) as u64),
        render_duration >= DISPLAY_DELTA ==> r is None,
{
    if render_duration < DISPLAY_DELTA {
        Some(DISPLAY_DELTA - render_duration)
    } else {
        None
    }
}

/// One display cycle's pure work between the aggregator snapshot and the
/// render: read the name cache, compute exactly the set of connection-remote
/// IPs absent from it (to be submitted for resolution), and, unless paused,
/// merge the snapshot and socket data into the display rows. The cache is
/// read before the unresolved set is computed, so a resolution completed
/// mid-cycle is visible next cycle, never skipped. While paused the rows are
/// left untouched.
pub fn run_display_cycle(
    ui: &mut UiState,
    utilization: &Utilization,
    open_sockets: &OpenSockets,
    dns_cache: Option<&IpTable>,
    paused: bool,
) -> (to_resolve: Vec<u128>)
    ensures
        final(ui).render_opts == old(ui).render_opts,
        (match dns_cache {
            Some(cache) => to_resolve@ == spec_unresolved(
                open_sockets.connections@,
                cache.entries@,
            ),
            None => to_resolve@.len() == 0,
        }),
        paused ==> *final(ui) == *old(ui),
        !paused ==> rows_reflect(
            final(ui).rows@,
            utilization.connections@,
            open_sockets.sockets_to_procs@,
            (match dns_cache {
                Some(cache) => cache.entries@,
                None => Seq::<(u128, String)>::empty(),
            }),
        ),
{
    let empty_table = IpTable::new();
    proof {
        assert(empty_table.entries@ =~= Seq::<(u128, String)>::empty());
    }
    let ip_to_host: &IpTable;
    let to_resolve: Vec<u128>;
    match dns_cache {
        Some(cache) => {
            to_resolve = unresolved_ips(cache, &open_sockets.connections);
            ip_to_host = cache;
        },
        None => {
            to_resolve = Vec::new();
            ip_to_host = &empty_table;
        },
    }
    if !paused {
        ui.update_state(&open_sockets.sockets_to_procs, utilization, ip_to_host);
    }
    to_resolve
}

} // verus!
