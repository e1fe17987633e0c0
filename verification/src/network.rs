//! Flow keys, classified traffic events, and the traffic aggregator: a
//! per-connection accumulator of upload/download byte counts supporting an
//! atomic snapshot-and-reset. The embedding program serializes access with a
//! mutex; every call below is one critical section's worth of work.

use vstd::prelude::*;
use crate::arith::{sat_add64, saturating_add_u64};

verus! {

#[derive(Clone, Copy, PartialEq, Eq, Structural, Debug)]
pub enum Protocol {
    Tcp,
    Udp,
}

/// A socket endpoint: an IP address (v4 or v6, encoded as an integer) and a
/// port.
#[derive(Clone, Copy, PartialEq, Eq, Structural, Debug)]
pub struct Socket {
    pub ip: u128,
    pub port: u16,
}

/// The local endpoint of a flow, which also carries the transport protocol.
#[derive(Clone, Copy, PartialEq, Eq, Structural, Debug)]
pub struct LocalSocket {
    pub ip: u128,
    pub port: u16,
    pub protocol: Protocol,
}

/// One local-remote socket pair: the unit of traffic attribution and the
/// aggregation key. Stable for the lifetime of the flow.
#[derive(Clone, Copy, PartialEq, Eq, Structural, Debug)]
pub struct Connection {
    pub local_socket: LocalSocket,
    pub remote_socket: Socket,
}

#[derive(Clone, Copy, PartialEq, Eq, Structural, Debug)]
pub enum Direction {
    Download,
    Upload,
}

/// One classified traffic event: a flow key, a direction, and a byte count.
#[derive(Clone, Copy, PartialEq, Eq, Structural, Debug)]
pub struct Segment {
    pub connection: Connection,
    pub direction: Direction,
    pub data_length: u64,
}

/// Bytes accumulated for one connection since the last snapshot.
#[derive(Clone, Copy, PartialEq, Eq, Structural, Debug)]
pub struct ConnectionTotals {
    pub uploaded: u64,
    pub downloaded: u64,
}

impl ConnectionTotals {
    pub open spec fn zero() -> ConnectionTotals {
        ConnectionTotals { uploaded: 0, downloaded: 0 }
    }
}

/// Totals bumped by one segment (saturating at the counter width).
pub open spec fn add_segment(t: ConnectionTotals, seg: Segment) -> ConnectionTotals {
    match seg.direction {
        Direction::Upload => ConnectionTotals {
            uploaded: sat_add64(t.uploaded, seg.data_length),
            downloaded: t.downloaded,
        },
        Direction::Download => ConnectionTotals {
            uploaded: t.uploaded,
            downloaded: sat_add64(t.downloaded, seg.data_length),
        },
    }
}

/// Lookup in the aggregator's association list.
pub open spec fn lookup(s: Seq<(Connection, ConnectionTotals)>, k: Connection) -> Option<
    ConnectionTotals,
>
    decreases s.len(),
{
    if s.len() == 0 {
        None
    } else if s.last().0 == k {
        Some(s.last().1)
    } else {
        lookup(s.drop_last(), k)
    }
}

pub open spec fn or_zero(t: Option<ConnectionTotals>) -> ConnectionTotals {
    match t {
        Some(x) => x,
        None => ConnectionTotals::zero(),
    }
}

pub open spec fn unique_keys(s: Seq<(Connection, ConnectionTotals)>) -> bool {
    forall|i: int, j: int| 0 <= i < j < s.len() ==> (#[trigger] s[i]).0 != (#[trigger] s[j]).0
}

/// The entry for `k` in a totals map, or zero when the map has none.
pub open spec fn entry_or_zero(m: Map<Connection, ConnectionTotals>, k: Connection) -> ConnectionTotals {
    if m.contains_key(k) {
        m[k]
    } else {
        ConnectionTotals::zero()
    }
}

/// The mutex-guarded traffic accumulator. Its abstract value is the map from
/// connection to totals accumulated since the last snapshot.
pub struct Utilization {
    pub connections: Vec<(Connection, ConnectionTotals)>,
}

/// The abstract value of an association list: the map it represents, where a
/// later entry for a key overrides an earlier one.
pub open spec fn map_of(s: Seq<(Connection, ConnectionTotals)>) -> Map<Connection, ConnectionTotals>
    decreases s.len(),
{
    if s.len() == 0 {
        Map::empty()
    } else {
        map_of(s.drop_last()).insert(s.last().0, s.last().1)
    }
}

impl View for Utilization {
    type V = Map<Connection, ConnectionTotals>;

    open spec fn view(&self) -> Map<Connection, ConnectionTotals> {
        map_of(self.connections@)
    }
}

/// `map_of` agrees with `lookup`, key by key.
proof fn lemma_map_of_lookup(s: Seq<(Connection, ConnectionTotals)>, k: Connection)
    ensures
        map_of(s).contains_key(k) <==> lookup(s, k) is Some,
        map_of(s).contains_key(k) ==> map_of(s)[k] == or_zero(lookup(s, k)),
    decreases s.len(),
{
    if s.len() > 0 {
        lemma_map_of_lookup(s.drop_last(), k);
    }
}

proof fn lemma_unique_keys_drop_last(s: Seq<(Connection, ConnectionTotals)>)
    requires
        unique_keys(s),
        s.len() > 0,
    ensures
        unique_keys(s.drop_last()),
{
    assert forall|i: int, j: int|
        0 <= i < j < s.drop_last().len() implies (#[trigger] s.drop_last()[i]).0 != (
    #[trigger] s.drop_last()[j]).0 by {
        assert(s.drop_last()[i] == s[i]);
        assert(s.drop_last()[j] == s[j]);
    }
}

/// Updating the value at index `i` (keys unchanged) updates exactly that
/// key's association.
proof fn lemma_lookup_update(
    s: Seq<(Connection, ConnectionTotals)>,
    i: int,
    v: ConnectionTotals,
    k2: Connection,
)
    requires
        unique_keys(s),
        0 <= i < s.len(),
    ensures
        lookup(s.update(i, (s[i].0, v)), k2) == if k2 == s[i].0 {
            Some(v)
        } else {
            lookup(s, k2)
        },
    decreases s.len(),
{
    let s2 = s.update(i, (s[i].0, v));
    assert(s2.len() == s.len());
    if i == s.len() - 1 {
        assert(s2.last() == (s[i].0, v));
        assert(s2.drop_last() =~= s.drop_last());
    } else {
        assert(s2.last() == s.last());
        assert(s2.drop_last() =~= s.drop_last().update(i, (s[i].0, v)));
        lemma_unique_keys_drop_last(s);
        assert(s.drop_last()[i] == s[i]);
        lemma_lookup_update(s.drop_last(), i, v, k2);
        if s.last().0 == k2 {
            // `k2` is the last key, so it differs from the key at `i`.
            assert(s[s.len() - 1].0 == k2);
            assert(s[i].0 != k2);
        }
    }
}

proof fn lemma_lookup_push(
    s: Seq<(Connection, ConnectionTotals)>,
    x: (Connection, ConnectionTotals),
    k2: Connection,
)
    ensures
        lookup(s.push(x), k2) == if k2 == x.0 {
            Some(x.1)
        } else {
            lookup(s, k2)
        },
{
    assert(s.push(x).drop_last() =~= s);
    assert(s.push(x).last() == x);
}

impl Utilization {
    pub open spec fn well_formed(self) -> bool {
        unique_keys(self.connections@)
    }

    /// A fresh aggregator with no totals.
    pub fn new() -> (r: Utilization)
        ensures
            r.well_formed(),
            r@ == Map::<Connection, ConnectionTotals>::empty(),
    {
        let r = Utilization { connections: Vec::new() };
        proof {
            assert(r.connections@.len() == 0);
        }
        r
    }

    /// Increments the entry matching the segment's flow key by its byte
    /// count, creating the entry if absent. Never loses an update: the new
    /// abstract value is exactly the old one with that single entry bumped.
    pub fn update(&mut self, segment: Segment)
        requires
            old(self).well_formed(),
        ensures
            final(self).well_formed(),
            final(self)@ == old(self)@.insert(
                segment.connection,
                add_segment(entry_or_zero(old(self)@, segment.connection), segment),
            ),
    {
        let ghost s0 = self.connections@;
        let n = self.connections.len();
        let mut i: usize = 0;
        while i < n
            invariant
                s0 == old(self).connections@,
                n == self.connections.len(),
                self.connections@ == s0,
                unique_keys(s0),
                i <= n,
                forall|j: int| 0 <= j < i ==> (#[trigger] s0[j]).0 != segment.connection,
            decreases n - i,
        {
            if self.connections[i].0 == segment.connection {
                let cur = self.connections[i].1;
                let bumped = match segment.direction {
                    Direction::Upload => ConnectionTotals {
                        uploaded: saturating_add_u64(cur.uploaded, segment.data_length),
                        downloaded: cur.downloaded,
                    },
                    Direction::Download => ConnectionTotals {
                        uploaded: cur.uploaded,
                        downloaded: saturating_add_u64(cur.downloaded, segment.data_length),
                    },
                };
                self.connections[i] = (segment.connection, bumped);
                proof {
                    assert(self.connections@ =~= s0.update(i as int, (s0[i as int].0, bumped)));
                    assert forall|k2: Connection|
                        lookup(self.connections@, k2) == if k2 == segment.connection {
                            Some(bumped)
                        } else {
                            lookup(s0, k2)
                        } by {
                        lemma_lookup_update(s0, i as int, bumped, k2);
                    }
                    assert forall|a: int, b: int|
                        0 <= a < b < self.connections@.len() implies (
                    #[trigger] self.connections@[a]).0 != (#[trigger] self.connections@[b]).0 by {
                        assert(self.connections@[a].0 == s0[a].0);
                        assert(self.connections@[b].0 == s0[b].0);
                    }
                    assert(lookup(s0, segment.connection) == Some(cur)) by {
                        lemma_lookup_update(s0, i as int, cur, segment.connection);
                        assert(s0.update(i as int, (s0[i as int].0, cur)) =~= s0);
                    }
                    let ghost sf = self.connections@;
                    assert forall|k2: Connection| #[trigger] map_of(sf).contains_key(k2) == (k2
                        == segment.connection || map_of(s0).contains_key(k2)) by {
                        lemma_map_of_lookup(sf, k2);
                        lemma_map_of_lookup(s0, k2);
                    }
                    assert forall|k2: Connection| map_of(sf).contains_key(k2) implies #[trigger] map_of(
                        sf,
                    )[k2] == (if k2 == segment.connection {
                        bumped
                    } else {
                        map_of(s0)[k2]
                    }) by {
                        lemma_map_of_lookup(sf, k2);
                        lemma_map_of_lookup(s0, k2);
                    }
                    lemma_map_of_lookup(s0, segment.connection);
                    assert(entry_or_zero(map_of(s0), segment.connection) == cur);
                    assert(map_of(sf) =~= map_of(s0).insert(segment.connection, bumped));
                    assert(bumped == add_segment(entry_or_zero(map_of(s0), segment.connection), segment));
                }
                return;
            }
            i += 1;
        }
        let fresh = match segment.direction {
            Direction::Upload => ConnectionTotals { uploaded: segment.data_length, downloaded: 0 },
            Direction::Download => ConnectionTotals {
                uploaded: 0,
                downloaded: segment.data_length,
            },
        };
        self.connections.push((segment.connection, fresh));
        proof {
            assert forall|k2: Connection|
                lookup(self.connections@, k2) == if k2 == segment.connection {
                    Some(fresh)
                } else {
                    lookup(s0, k2)
                } by {
                lemma_lookup_push(s0, (segment.connection, fresh), k2);
            }
            assert forall|a: int, b: int|
                0 <= a < b < self.connections@.len() implies (
            #[trigger] self.connections@[a]).0 != (#[trigger] self.connections@[b]).0 by {
                if b < s0.len() {
                    assert(self.connections@[a].0 == s0[a].0);
                    assert(self.connections@[b].0 == s0[b].0);
                } else {
                    assert(self.connections@[a].0 == s0[a].0);
                    assert(self.connections@[b].0 == segment.connection);
                }
            }
            assert(lookup(s0, segment.connection) is None) by {
                lemma_lookup_none_when_no_key(s0, segment.connection);
            }
            lemma_map_of_lookup(s0, segment.connection);
            assert(entry_or_zero(map_of(s0), segment.connection) == ConnectionTotals::zero());
            let ghost sf = self.connections@;
            assert(sf.drop_last() =~= s0);
            assert(sf.last() == (segment.connection, fresh));
            assert(map_of(sf) == map_of(s0).insert(segment.connection, fresh));
            assert(fresh == add_segment(entry_or_zero(map_of(s0), segment.connection), segment));
        }
    }

    /// Atomic snapshot-with-reset: returns the full current totals and leaves
    /// the aggregator empty, so every update belongs to exactly one snapshot.
    pub fn clone_and_reset(&mut self) -> (r: Utilization)
        requires
            old(self).well_formed(),
        ensures
            r.well_formed(),
            r@ == old(self)@,
            final(self).well_formed(),
            final(self)@ == Map::<Connection, ConnectionTotals>::empty(),
    {
        let ghost s0 = self.connections@;
        let drained = self.connections.split_off(0);
        let r = Utilization { connections: drained };
        proof {
            assert(s0 == old(self).connections@);
            assert(r.connections@ =~= s0);
            assert(self.connections@ =~= Seq::<(Connection, ConnectionTotals)>::empty());
            assert(self.connections@.len() == 0);
        }
        r
    }

    /// The totals recorded for one connection (zero when none are).
    pub fn get_totals(&self, k: Connection) -> (r: ConnectionTotals)
        ensures
            r == entry_or_zero(self@, k),
    {
        let ghost s0 = self.connections@;
        let mut i: usize = self.connections.len();
        proof {
            assert(s0.take(s0.len() as int) =~= s0);
        }
        while i > 0
            invariant
                i <= self.connections.len(),
                self.connections@ == s0,
                lookup(s0, k) == lookup(s0.take(i as int), k),
            decreases i,
        {
            proof {
                assert(s0.take(i as int).last() == s0[i - 1]);
                assert(s0.take(i as int).drop_last() =~= s0.take(i - 1));
            }
            if self.connections[i - 1].0 == k {
                proof {
                    lemma_map_of_lookup(s0, k);
                }
                return self.connections[i - 1].1;
            }
            i -= 1;
        }
        proof {
            assert(s0.take(0) =~= Seq::<(Connection, ConnectionTotals)>::empty());
            lemma_map_of_lookup(s0, k);
        }
        ConnectionTotals { uploaded: 0, downloaded: 0 }
    }
}

proof fn lemma_lookup_none_when_no_key(s: Seq<(Connection, ConnectionTotals)>, k: Connection)
    requires
        forall|j: int| 0 <= j < s.len() ==> (#[trigger] s[j]).0 != k,
    ensures
        lookup(s, k) is None,
    decreases s.len(),
{
    if s.len() > 0 {
        assert(s.drop_last() =~= s.take(s.len() - 1));
        lemma_lookup_none_when_no_key(s.drop_last(), k);
    }
}

/// The abstract totals map after a sequence of updates, applied in order to a
/// starting map. One `update` call performs exactly one step of this fold.
pub open spec fn apply_updates(
    m: Map<Connection, ConnectionTotals>,
    evs: Seq<Segment>,
) -> Map<Connection, ConnectionTotals>
    decreases evs.len(),
{
    if evs.len() == 0 {
        m
    } else {
        let prev = apply_updates(m, evs.drop_last());
        let e = evs.last();
        prev.insert(e.connection, add_segment(entry_or_zero(prev, e.connection), e))
    }
}

/// Sum of the byte counts of all upload events for `k` in `evs`.
pub open spec fn uploaded_total(evs: Seq<Segment>, k: Connection) -> nat
    decreases evs.len(),
{
    if evs.len() == 0 {
        0
    } else {
        uploaded_total(evs.drop_last(), k) + if evs.last().connection == k && evs.last().direction
            is Upload {
            evs.last().data_length as nat
        } else {
            0
        }
    }
}

/// Sum of the byte counts of all download events for `k` in `evs`.
pub open spec fn downloaded_total(evs: Seq<Segment>, k: Connection) -> nat
    decreases evs.len(),
{
    if evs.len() == 0 {
        0
    } else {
        downloaded_total(evs.drop_last(), k) + if evs.last().connection == k && evs.last().direction
            is Download {
            evs.last().data_length as nat
        } else {
            0
        }
    }
}

pub open spec fn touches(evs: Seq<Segment>, k: Connection) -> bool {
    exists|i: int| 0 <= i < evs.len() && (#[trigger] evs[i]).connection == k
}

/// A key with no event in `evs` has zero for both sums.
proof fn lemma_totals_zero_when_untouched(evs: Seq<Segment>, k: Connection)
    requires
        !touches(evs, k),
    ensures
        uploaded_total(evs, k) == 0,
        downloaded_total(evs, k) == 0,
    decreases evs.len(),
{
    if evs.len() > 0 {
        let pre = evs.drop_last();
        assert(!touches(pre, k)) by {
            if touches(pre, k) {
                let i = choose|i: int| 0 <= i < pre.len() && (#[trigger] pre[i]).connection == k;
                assert(evs[i].connection == k);
            }
        }
        lemma_totals_zero_when_untouched(pre, k);
        assert(evs[evs.len() - 1].connection != k);
    }
}

/// No update is lost and none is double counted: after any sequence of
/// updates on a fresh aggregator — any interleaving of concurrent callers is
/// such a sequence, because each call holds the aggregator's lock — the
/// snapshot holds, for every key, exactly the sum of the byte counts issued
/// for it (provided those sums fit the counter width), and holds no key
/// without an update. The reset half of the guarantee is `clone_and_reset`'s
/// own contract: the totals left behind are empty, so an immediately
/// following snapshot reports zero for every key.
pub proof fn lemma_snapshot_totals(evs: Seq<Segment>, k: Connection)
    requires
        uploaded_total(evs, k) <= u64::MAX,
        downloaded_total(evs, k) <= u64::MAX,
    ensures
        apply_updates(Map::<Connection, ConnectionTotals>::empty(), evs).contains_key(k)
            <==> touches(evs, k),
        touches(evs, k) ==> apply_updates(Map::<Connection, ConnectionTotals>::empty(), evs)[k]
            == (ConnectionTotals {
            uploaded: uploaded_total(evs, k) as u64,
            downloaded: downloaded_total(evs, k) as u64,
        }),
    decreases evs.len(),
{
    if evs.len() == 0 {
    } else {
        let pre = evs.drop_last();
        let e = evs.last();
        let prev = apply_updates(Map::<Connection, ConnectionTotals>::empty(), pre);
        lemma_snapshot_totals(pre, k);
        if e.connection == k {
            assert(touches(evs, k)) by {
                assert(evs[evs.len() - 1].connection == k);
            }
            if touches(pre, k) {
                assert(prev[k].uploaded == uploaded_total(pre, k));
                assert(prev[k].downloaded == downloaded_total(pre, k));
            } else {
                lemma_totals_zero_when_untouched(pre, k);
                assert(!prev.contains_key(k));
                assert(entry_or_zero(prev, k) == ConnectionTotals::zero());
            }
        } else {
            if touches(pre, k) {
                let i = choose|i: int| 0 <= i < pre.len() && (#[trigger] pre[i]).connection == k;
                assert(evs[i].connection == k);
                assert(touches(evs, k));
            }
            if touches(evs, k) {
                let i = choose|i: int| 0 <= i < evs.len() && (#[trigger] evs[i]).connection == k;
                assert(i < pre.len());
                assert(pre[i].connection == k);
                assert(touches(pre, k));
            }
        }
    }
}

} // verus!
