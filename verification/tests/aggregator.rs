use bandwhich::network::{
    Connection, ConnectionTotals, Direction, LocalSocket, Protocol, Segment, Socket, Utilization,
};

fn test_connection(port: u16) -> Connection {
    Connection {
        local_socket: LocalSocket { ip: 0x7f000001, port, protocol: Protocol::Tcp },
        remote_socket: Socket { ip: 0x0a000001, port: 443 },
    }
}

fn segment(conn: Connection, direction: Direction, len: u64) -> Segment {
    Segment { connection: conn, direction, data_length: len }
}

#[test]
fn update_creates_entry() {
    let mut util = Utilization::new();
    let conn = test_connection(4435);
    util.update(segment(conn, Direction::Download, 100));
    let totals = util.get_totals(conn);
    assert_eq!(totals.downloaded, 100);
    assert_eq!(totals.uploaded, 0);
}

#[test]
fn update_accumulates_per_direction() {
    let mut util = Utilization::new();
    let conn = test_connection(4435);
    util.update(segment(conn, Direction::Download, 100));
    util.update(segment(conn, Direction::Upload, 30));
    util.update(segment(conn, Direction::Download, 20));
    let totals = util.get_totals(conn);
    assert_eq!(totals.downloaded, 120);
    assert_eq!(totals.uploaded, 30);
}

#[test]
fn update_keeps_keys_separate() {
    let mut util = Utilization::new();
    let first = test_connection(4435);
    let second = test_connection(4436);
    util.update(segment(first, Direction::Upload, 10));
    util.update(segment(second, Direction::Upload, 25));
    assert_eq!(util.get_totals(first).uploaded, 10);
    assert_eq!(util.get_totals(second).uploaded, 25);
}

#[test]
fn interleaved_updates_from_two_sources_sum_exactly() {
    // Two capture threads each issue 100 updates of 10 bytes (upload) for the
    // same key, interleaved; one snapshot afterward reports 2000 bytes, the
    // following snapshot reports 0.
    let mut util = Utilization::new();
    let conn = test_connection(4435);
    for _ in 0..100 {
        // One update from each "thread", in alternation.
        util.update(segment(conn, Direction::Upload, 10));
        util.update(segment(conn, Direction::Upload, 10));
    }
    let snapshot = util.clone_and_reset();
    assert_eq!(snapshot.get_totals(conn).uploaded, 2000);
    assert_eq!(snapshot.get_totals(conn).downloaded, 0);
    let second = util.clone_and_reset();
    assert_eq!(second.get_totals(conn).uploaded, 0);
    assert_eq!(second.connections.len(), 0);
}

#[test]
fn snapshot_resets_aggregator() {
    let mut util = Utilization::new();
    let conn = test_connection(80);
    util.update(segment(conn, Direction::Download, 7));
    let snapshot = util.clone_and_reset();
    assert_eq!(snapshot.connections.len(), 1);
    assert_eq!(util.connections.len(), 0);
    assert_eq!(util.get_totals(conn), ConnectionTotals { uploaded: 0, downloaded: 0 });
}

#[test]
fn counters_saturate_at_the_limit() {
    let mut util = Utilization::new();
    let conn = test_connection(80);
    util.update(segment(conn, Direction::Upload, u64::MAX));
    util.update(segment(conn, Direction::Upload, 1000));
    assert_eq!(util.get_totals(conn).uploaded, u64::MAX);
}
