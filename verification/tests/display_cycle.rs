use bandwhich::display::{run_display_cycle, sleep_after_render, DISPLAY_DELTA};
use bandwhich::dns::{unresolved_ips, IpTable};
use bandwhich::network::{
    Connection, Direction, LocalSocket, Protocol, Segment, Socket, Utilization,
};
use bandwhich::ui::UiState;
use bandwhich::{OpenSockets, RenderOpts};

fn default_opts() -> RenderOpts {
    RenderOpts { processes: false, connections: false, addresses: false, total_utilization: false }
}

fn test_connection(remote_ip: u128) -> Connection {
    Connection {
        local_socket: LocalSocket { ip: 0x7f000001, port: 4435, protocol: Protocol::Tcp },
        remote_socket: Socket { ip: remote_ip, port: 443 },
    }
}

#[test]
fn table_count_reflects_render_options() {
    let ui = UiState::new(default_opts());
    assert_eq!(ui.get_table_count(), 3);
    let ui = UiState::new(RenderOpts {
        processes: true,
        connections: false,
        addresses: false,
        total_utilization: false,
    });
    assert_eq!(ui.get_table_count(), 1);
    let ui = UiState::new(RenderOpts {
        processes: true,
        connections: true,
        addresses: false,
        total_utilization: false,
    });
    assert_eq!(ui.get_table_count(), 2);
}

#[test]
fn sleep_covers_remainder_of_cadence() {
    assert_eq!(sleep_after_render(0), Some(DISPLAY_DELTA));
    assert_eq!(sleep_after_render(400), Some(600));
    assert_eq!(sleep_after_render(DISPLAY_DELTA), None);
    assert_eq!(sleep_after_render(5000), None);
}

#[test]
fn raw_mode_interval_report_shows_snapshot_totals() {
    // Single interface, no DNS, raw mode: 50 events of 4 bytes download each
    // for one key within one interval show up as 200 bytes download, 0 upload.
    let conn = test_connection(0x0a000001);
    let mut util = Utilization::new();
    for _ in 0..50 {
        util.update(Segment { connection: conn, direction: Direction::Download, data_length: 4 });
    }
    let snapshot = util.clone_and_reset();
    let open_sockets = OpenSockets {
        sockets_to_procs: vec![(conn.local_socket, String::from("firefox"))],
        connections: vec![conn],
    };
    let mut ui = UiState::new(default_opts());
    let to_resolve = run_display_cycle(&mut ui, &snapshot, &open_sockets, None, false);
    assert!(to_resolve.is_empty());
    assert_eq!(ui.rows.len(), 1);
    assert_eq!(ui.rows[0].connection, conn);
    assert_eq!(ui.rows[0].totals.downloaded, 200);
    assert_eq!(ui.rows[0].totals.uploaded, 0);
    assert_eq!(ui.rows[0].process_name.as_deref(), Some("firefox"));
    assert_eq!(ui.rows[0].hostname, None);
}

#[test]
fn hostname_shows_up_only_once_the_cache_reports_it() {
    let remote_ip = 0x0a000001;
    let conn = test_connection(remote_ip);
    let open_sockets = OpenSockets {
        sockets_to_procs: vec![(conn.local_socket, String::from("curl"))],
        connections: vec![conn],
    };
    let mut cache = IpTable::new();
    let mut ui = UiState::new(default_opts());

    // Cycle 1: the IP is absent from the cache, so it is submitted for
    // resolution and the row carries no hostname yet.
    let mut util = Utilization::new();
    util.update(Segment { connection: conn, direction: Direction::Upload, data_length: 10 });
    let snapshot = util.clone_and_reset();
    let to_resolve = run_display_cycle(&mut ui, &snapshot, &open_sockets, Some(&cache), false);
    assert_eq!(to_resolve, vec![remote_ip]);
    assert_eq!(ui.rows[0].hostname, None);

    // The collaborator resolves the IP between the cycles.
    cache.insert(remote_ip, String::from("example.host"));

    // Cycle 2: nothing left to resolve, and the row shows the hostname.
    util.update(Segment { connection: conn, direction: Direction::Upload, data_length: 10 });
    let snapshot = util.clone_and_reset();
    let to_resolve = run_display_cycle(&mut ui, &snapshot, &open_sockets, Some(&cache), false);
    assert!(to_resolve.is_empty());
    assert_eq!(ui.rows[0].hostname.as_deref(), Some("example.host"));
}

#[test]
fn paused_cycle_leaves_rows_untouched() {
    let conn = test_connection(0x0a000001);
    let open_sockets = OpenSockets { sockets_to_procs: vec![], connections: vec![conn] };
    let mut ui = UiState::new(default_opts());

    let mut util = Utilization::new();
    util.update(Segment { connection: conn, direction: Direction::Download, data_length: 42 });
    let snapshot = util.clone_and_reset();
    run_display_cycle(&mut ui, &snapshot, &open_sockets, None, false);
    assert_eq!(ui.rows[0].totals.downloaded, 42);

    util.update(Segment { connection: conn, direction: Direction::Download, data_length: 7 });
    let snapshot = util.clone_and_reset();
    run_display_cycle(&mut ui, &snapshot, &open_sockets, None, true);
    // Still the rows of the unpaused cycle.
    assert_eq!(ui.rows.len(), 1);
    assert_eq!(ui.rows[0].totals.downloaded, 42);
}

#[test]
fn unresolved_ips_keeps_connection_order_and_duplicates() {
    let first = test_connection(0x0a000001);
    let second = test_connection(0x0a000002);
    let mut cache = IpTable::new();
    cache.insert(0x0a000002, String::from("known.host"));
    let connections = vec![first, second, first];
    let unresolved = unresolved_ips(&cache, &connections);
    assert_eq!(unresolved, vec![0x0a000001, 0x0a000001]);
}

#[test]
fn name_cache_lookups_and_growth() {
    let mut cache = IpTable::new();
    assert!(!cache.contains_ip(1));
    assert_eq!(cache.get_name(1), None);
    cache.insert(1, String::from("one.example"));
    cache.insert(2, String::from("two.example"));
    assert!(cache.contains_ip(1));
    assert_eq!(cache.get_name(1).as_deref(), Some("one.example"));
    assert_eq!(cache.get_name(2).as_deref(), Some("two.example"));
    assert_eq!(cache.get_name(3), None);
    assert_eq!(cache.entries.len(), 2);
}
