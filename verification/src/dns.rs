//! The reverse-DNS name cache the display loop consults, and the computation
//! of which remote IPs must be submitted for resolution in a cycle. The
//! resolution protocol itself is an external collaborator; it feeds results
//! back through `insert`.

use vstd::prelude::*;
use crate::network::Connection;

verus! {

/// The hostname recorded for `ip` in an association list, the newest entry
/// winning.
pub open spec fn name_lookup(s: Seq<(u128, String)>, ip: u128) -> Option<String>
    decreases s.len(),
{
    if s.len() == 0 {
        None
    } else if s.last().0 == ip {
        Some(s.last().1)
    } else {
        name_lookup(s.drop_last(), ip)
    }
}

/// A monotonically growing map from IP address to resolved hostname. The
/// core never evicts entries; eviction, if any, is the resolver's concern.
pub struct IpTable {
    pub entries: Vec<(u128, String)>,
}

impl IpTable {
    pub open spec fn spec_contains(self, ip: u128) -> bool {
        name_lookup(self.entries@, ip) is Some
    }

    pub fn new() -> (r: IpTable)
        ensures
            r.entries@.len() == 0,
            forall|q: u128| name_lookup(r.entries@, q) is None,
    {
        IpTable { entries: Vec::new() }
    }

    /// Records a completed resolution. Existing entries stay; only the
    /// association for `ip` itself changes.
    pub fn insert(&mut self, ip: u128, name: String)
        ensures
            final(self).entries@ == old(self).entries@.push((ip, name)),
            forall|q: u128|
                name_lookup(final(self).entries@, q) == if q == ip {
                    Some(name)
                } else {
                    name_lookup(old(self).entries@, q)
                },
    {
        let ghost s0 = self.entries@;
        self.entries.push((ip, name));
        proof {
            assert(self.entries@.drop_last() =~= s0);
            assert(self.entries@.last() == (ip, name));
        }
    }

    /// Whether `ip` already has a resolved name.
    pub fn contains_ip(&self, ip: u128) -> (r: bool)
        ensures
            r == self.spec_contains(ip),
    {
        let ghost s0 = self.entries@;
        let mut i: usize = self.entries.len();
        proof {
            assert(s0.take(s0.len() as int) =~= s0);
        }
        while i > 0
            invariant
                i <= self.entries.len(),
                self.entries@ == s0,
                name_lookup(s0, ip) == name_lookup(s0.take(i as int), ip),
            decreases i,
        {
            proof {
                assert(s0.take(i as int).last() == s0[i - 1]);
                assert(s0.take(i as int).drop_last() =~= s0.take(i - 1));
            }
            if self.entries[i - 1].0 == ip {
                return true;
            }
            i -= 1;
        }
        proof {
            assert(s0.take(0) =~= Seq::<(u128, String)>::empty());
        }
        false
    }

    /// The resolved name for `ip`, if the cache has one.
    pub fn get_name(&self, ip: u128) -> (r: Option<String>)
        ensures
            r == name_lookup(self.entries@, ip),
    {
        let ghost s0 = self.entries@;
        let mut i: usize = self.entries.len();
        proof {
            assert(s0.take(s0.len() as int) =~= s0);
        }
        while i > 0
            invariant
                i <= self.entries.len(),
                self.entries@ == s0,
                name_lookup(s0, ip) == name_lookup(s0.take(i as int), ip),
            decreases i,
        {
            proof {
                assert(s0.take(i as int).last() == s0[i - 1]);
                assert(s0.take(i as int).drop_last() =~= s0.take(i - 1));
            }
            if self.entries[i - 1].0 == ip {
                return Some(self.entries[i - 1].1.clone());
            }
            i -= 1;
        }
        proof {
            assert(s0.take(0) =~= Seq::<(u128, String)>::empty());
        }
        None
    }
}

/// The remote IPs of `conns` that have no entry in `table`, in connection
/// order: exactly the set a display cycle submits for resolution. An IP
/// resolved by a later cycle simply stops appearing.
pub open spec fn spec_unresolved(conns: Seq<Connection>, table: Seq<(u128, String)>) -> Seq<u128>
    decreases conns.len(),
{
    if conns.len() == 0 {
        Seq::empty()
    } else {
        let rest = spec_unresolved(conns.drop_last(), table);
        if name_lookup(table, conns.last().remote_socket.ip) is None {
            rest.push(conns.last().remote_socket.ip)
        } else {
            rest
        }
    }
}

/// Computes the set of connection-remote IPs absent from the cache. The
/// display loop reads the cache before submitting this set, so a resolution
/// completed mid-cycle is visible next cycle, never skipped.
pub fn unresolved_ips(table: &IpTable, connections: &Vec<Connection>) -> (r: Vec<u128>)
    ensures
        r@ == spec_unresolved(connections@, table.entries@),
{
    let mut out: Vec<u128> = Vec::new();
    let mut i: usize = 0;
    proof {
        assert(connections@.take(0) =~= Seq::<Connection>::empty());
    }
    while i < connections.len()
        invariant
            i <= connections.len(),
            out@ == spec_unresolved(connections@.take(i as int), table.entries@),
        decreases connections.len() - i,
    {
        proof {
            assert(connections@.take(i + 1).drop_last() =~= connections@.take(i as int));
            assert(connections@.take(i + 1).last() == connections@[i as int]);
        }
        if !table.contains_ip(connections[i].remote_socket.ip) {
            out.push(connections[i].remote_socket.ip);
        }
        i += 1;
    }
    proof {
        assert(connections@.take(connections@.len() as int) =~= connections@);
    }
    out
}

} // verus!
