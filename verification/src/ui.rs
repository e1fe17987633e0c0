//! UI state kept by the display loop: which tables are visible, the cycling
//! view offset, and the merged rows (snapshot totals joined with process
//! names and resolved hostnames). Drawing the rows to a terminal, or dumping
//! them as text, is the rendering collaborator's job.

use vstd::prelude::*;
use crate::RenderOpts;
use crate::dns::{name_lookup, IpTable};
use crate::network::{Connection, ConnectionTotals, LocalSocket, Utilization};

verus! {

/// How many tables the render options make visible: the three standard
/// tables, or just the ones explicitly selected.
pub open spec fn spec_table_count(opts: RenderOpts) -> int {
    if !opts.processes && !opts.connections && !opts.addresses {
        3
    } else {
        (if opts.processes { 1int } else { 0 }) + (if opts.connections { 1int } else { 0 })
            + (if opts.addresses { 1int } else { 0 })
    }
}

/// The view offset after one cycle action: advance by one position, modulo
/// the number of visible tables.
pub open spec fn spec_next_offset(offset: usize, table_count: usize) -> int {
    if table_count == 0 {
        0
    } else {
        (offset + 1) % (table_count as int)
    }
}

/// Advances the view offset by one, wrapping at the table count, so the
/// result always indexes an existing table.
pub fn next_ui_offset(offset: usize, table_count: usize) -> (r: usize)
    requires
        1 <= table_count,
        offset < table_count,
    ensures
        r == spec_next_offset(offset, table_count),
        r < table_count,
{
    (offset + 1) % table_count
}

/// The offset reached from `start` after `k` cycle actions.
pub open spec fn spec_cycled(start: usize, k: nat, table_count: usize) -> int
    decreases k,
{
    if k == 0 {
        start as int
    } else {
        if table_count == 0 {
            0
        } else {
            (spec_cycled(start, (k - 1) as nat, table_count) + 1) % (table_count as int)
        }
    }
}

proof fn lemma_cycled_mod(k: nat, table_count: usize)
    requires
        1 <= table_count,
    ensures
        spec_cycled(0, k, table_count) == k as int % (table_count as int),
    decreases k,
{
    if k > 0 {
        lemma_cycled_mod((k - 1) as nat, table_count);
        assert(((k - 1) as nat) as int == (k - 1) as int);
        assert(spec_cycled(0, k, table_count) == (spec_cycled(0, (k - 1) as nat, table_count) + 1)
            % (table_count as int));
        assert(((((k - 1) as int) % (table_count as int)) + 1) % (table_count as int) == k as int
            % (table_count as int)) by {
            vstd::arithmetic::div_mod::lemma_add_mod_noop_right(1, (k - 1) as int, table_count as int);
            assert((1 + (k - 1) as int) % (table_count as int) == k as int % (table_count as int));
        }
    } else {
        assert(k as int % (table_count as int) == 0) by {
            vstd::arithmetic::div_mod::lemma_small_mod(0nat, table_count as nat);
        }
    }
}

/// Starting from offset 0, repeated cycle actions visit every table index
/// before repeating: after `i` actions the offset is exactly `i` for every
/// `i` below the table count, it never reaches the table count, and after
/// `table_count` actions it is back at 0.
pub proof fn lemma_cycle_visits_all_views(table_count: usize)
    requires
        1 <= table_count,
    ensures
        forall|i: nat| i < table_count ==> spec_cycled(0, i, table_count) == i,
        forall|i: nat| #[trigger] spec_cycled(0, i, table_count) < table_count,
        spec_cycled(0, table_count as nat, table_count) == 0,
{
    assert forall|i: nat| i < table_count implies spec_cycled(0, i, table_count) == i by {
        lemma_cycled_mod(i, table_count);
        assert(i as int % (table_count as int) == i) by {
            vstd::arithmetic::div_mod::lemma_small_mod(i, table_count as nat);
        }
    }
    assert forall|i: nat| #[trigger] spec_cycled(0, i, table_count) < table_count by {
        lemma_cycled_mod(i, table_count);
        vstd::arithmetic::div_mod::lemma_mod_bound(i as int, table_count as int);
    }
    lemma_cycled_mod(table_count as nat, table_count);
    assert(table_count as int % (table_count as int) == 0) by {
        vstd::arithmetic::div_mod::lemma_mod_self_0(table_count as int);
    }
}

/// The process name recorded for a local socket, the newest entry winning.
pub open spec fn proc_lookup(s: Seq<(LocalSocket, String)>, sock: LocalSocket) -> Option<String>
    decreases s.len(),
{
    if s.len() == 0 {
        None
    } else if s.last().0 == sock {
        Some(s.last().1)
    } else {
        proc_lookup(s.drop_last(), sock)
    }
}

/// The owning process of a local socket, per the socket table of this cycle.
pub fn get_process_name(procs: &Vec<(LocalSocket, String)>, sock: LocalSocket) -> (r: Option<
    String,
>)
    ensures
        r == proc_lookup(procs@, sock),
{
    let ghost s0 = procs@;
    let mut i: usize = procs.len();
    proof {
        assert(s0.take(s0.len() as int) =~= s0);
    }
    while i > 0
        invariant
            i <= procs.len(),
            procs@ == s0,
            proc_lookup(s0, sock) == proc_lookup(s0.take(i as int), sock),
        decreases i,
    {
        proof {
            assert(s0.take(i as int).last() == s0[i - 1]);
            assert(s0.take(i as int).drop_last() =~= s0.take(i - 1));
        }
        if procs[i - 1].0 == sock {
            return Some(procs[i - 1].1.clone());
        }
        i -= 1;
    }
    proof {
        assert(s0.take(0) =~= Seq::<(LocalSocket, String)>::empty());
    }
    None
}

/// One merged display row: a connection's totals for the interval, joined
/// with the owning process (if the socket table knows it) and the remote
/// host's name (if the cache has resolved it).
pub struct UiRow {
    pub connection: Connection,
    pub totals: ConnectionTotals,
    pub process_name: Option<String>,
    pub hostname: Option<String>,
}

/// The rows mirror the snapshot exactly: one row per aggregated connection,
/// in snapshot order, each joined against the socket table and the name
/// cache. A hostname appears in a row exactly when the cache reports it.
pub open spec fn rows_reflect(
    rows: Seq<UiRow>,
    util: Seq<(Connection, ConnectionTotals)>,
    procs: Seq<(LocalSocket, String)>,
    names: Seq<(u128, String)>,
) -> bool {
    &&& rows.len() == util.len()
    &&& forall|i: int|
        0 <= i < util.len() ==> {
            &&& (#[trigger] rows[i]).connection == util[i].0
            &&& rows[i].totals == util[i].1
            &&& rows[i].process_name == proc_lookup(procs, util[i].0.local_socket)
            &&& rows[i].hostname == name_lookup(names, util[i].0.remote_socket.ip)
        }
}

/// The display state owned by the UI lock.
pub struct UiState {
    pub render_opts: RenderOpts,
    pub rows: Vec<UiRow>,
}

impl UiState {
    pub fn new(render_opts: RenderOpts) -> (r: UiState)
        ensures
            r.render_opts == render_opts,
            r.rows@.len() == 0,
    {
        UiState { render_opts, rows: Vec::new() }
    }

    /// How many tables the cycle key rotates through; at least one.
    pub fn get_table_count(&self) -> (r: usize)
        ensures
            r == spec_table_count(self.render_opts),
            1 <= r <= 3,
    {
        if !self.render_opts.processes && !self.render_opts.connections
            && !self.render_opts.addresses {
            3
        } else {
            let mut count: usize = 0;
            if self.render_opts.processes {
                count += 1;
            }
            if self.render_opts.connections {
                count += 1;
            }
            if self.render_opts.addresses {
                count += 1;
            }
            count
        }
    }

    /// Merges one interval snapshot with this cycle's socket table and the
    /// current name cache into display rows, replacing the previous rows.
    pub fn update_state(
        &mut self,
        sockets_to_procs: &Vec<(LocalSocket, String)>,
        utilization: &Utilization,
        ip_to_host: &IpTable,
    )
        ensures
            final(self).render_opts == old(self).render_opts,
            rows_reflect(
                final(self).rows@,
                utilization.connections@,
                sockets_to_procs@,
                ip_to_host.entries@,
            ),
    {
        let mut rows: Vec<UiRow> = Vec::new();
        let mut i: usize = 0;
        while i < utilization.connections.len()
            invariant
                i <= utilization.connections.len(),
                rows@.len() == i,
                forall|j: int|
                    0 <= j < i ==> {
                        &&& (#[trigger] rows@[j]).connection == utilization.connections@[j].0
                        &&& rows@[j].totals == utilization.connections@[j].1
                        &&& rows@[j].process_name == proc_lookup(
                            sockets_to_procs@,
                            utilization.connections@[j].0.local_socket,
                        )
                        &&& rows@[j].hostname == name_lookup(
                            ip_to_host.entries@,
                            utilization.connections@[j].0.remote_socket.ip,
                        )
                    },
            decreases utilization.connections.len() - i,
        {
            let connection = utilization.connections[i].0;
            let totals = utilization.connections[i].1;
            let process_name = get_process_name(sockets_to_procs, connection.local_socket);
            let hostname = ip_to_host.get_name(connection.remote_socket.ip);
            rows.push(UiRow { connection, totals, process_name, hostname });
            i += 1;
        }
        self.rows = rows;
    }
}

} // verus!
