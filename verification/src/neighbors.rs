//! Per-neighbor freshness state: the last-accepted sequence number for
//! each source address ever heard from.

use vstd::prelude::*;
use vstd::pervasive::VecAdditionalExecFns;

verus! {

/// A source IP address as plain values: an IPv4 address as its four
/// bytes in one integer, an IPv6 address as its sixteen bytes in one
/// integer, both most significant byte first.
#[derive(Debug, Clone, Copy, PartialEq, Eq, Structural)]
pub enum IpAddress {
    V4(u32),
    V6(u128),
}

/// A peer's socket address.
#[derive(Debug, Clone, Copy, PartialEq, Eq, Structural)]
pub struct PeerAddr {
    pub ip: IpAddress,
    pub port: u16,
}

/// Freshness: a beacon from `src` is accepted exactly when no sequence
/// number is recorded for `src` yet, or the new one is strictly greater
/// than the recorded one.  The comparison is a plain order, so a counter
/// that wraps around past its maximum is seen as stale; that known
/// limitation is kept as the protocol has it.
pub open spec fn beacon_is_fresh(table: Map<PeerAddr, u64>, src: PeerAddr, seqno: u64) -> bool {
    !table.contains_key(src) || seqno > table[src]
}

/// Freshness monotonicity: the first beacon from an address is always
/// accepted, and once a sequence number is accepted and recorded, a
/// later beacon from that address is accepted exactly when its number is
/// strictly greater — equal or older numbers are stale.
pub proof fn lemma_freshness_monotonic(
    table: Map<PeerAddr, u64>,
    src: PeerAddr,
    accepted: u64,
    later: u64,
)
    ensures
        !table.contains_key(src) ==> beacon_is_fresh(table, src, accepted),
        beacon_is_fresh(table.insert(src, accepted), src, later) <==> later > accepted,
{
}

/// The mapping from source address to the last-accepted sequence
/// number.  Entries are only inserted or overwritten, never evicted.
pub struct NeighborTable {
    entries: Vec<(PeerAddr, u64)>,
}

impl View for NeighborTable {
    type V = Map<PeerAddr, u64>;

    closed spec fn view(&self) -> Map<PeerAddr, u64> {
        Map::new(
            |k: PeerAddr| exists|i: int| 0 <= i < self.entries@.len() && self.entries@[i].0 == k,
            |k: PeerAddr|
                {
                    let i = choose|i: int|
                        0 <= i < self.entries@.len() && self.entries@[i].0 == k;
                    self.entries@[i].1
                },
        )
    }
}

spec fn table_inv(t: NeighborTable) -> bool {
    forall|i: int, j: int|
        0 <= i < j < t.entries@.len() ==> (#[trigger] t.entries@[i]).0 != (
        #[trigger] t.entries@[j]).0
}

impl NeighborTable {
    /// The table's internal invariant: one entry per address.  `new`
    /// establishes it and every method preserves it.
    pub closed spec fn wf(&self) -> bool {
        table_inv(*self)
    }

    /// An empty table: nothing heard from anyone yet.
    pub fn new() -> (r: Self)
        ensures
            r@ == Map::<PeerAddr, u64>::empty(),
            r.wf(),
    {
        let r = NeighborTable { entries: Vec::new() };
        proof {
            assert(r@ =~= Map::<PeerAddr, u64>::empty());
        }
        r
    }

    /// The sequence number last accepted from `addr`, if any was.
    pub fn lookup(&self, addr: PeerAddr) -> (r: Option<u64>)
        requires
            self.wf(),
        ensures
            r == if self@.contains_key(addr) {
                Some(self@[addr])
            } else {
                None::<u64>
            },
    {
        let n = self.entries.len();
        let mut i: usize = 0;
        while i < n
            invariant
                i <= n,
                n == self.entries@.len(),
                table_inv(*self),
                forall|j: int| 0 <= j < i ==> (#[trigger] self.entries@[j]).0 != addr,
            decreases n - i,
        {
            let (k, v) = self.entries[i];
            if k == addr {
                proof {
                    let w = choose|w: int|
                        0 <= w < self.entries@.len() && self.entries@[w].0 == addr;
                    assert(self.entries@[i as int].0 == addr);
                    assert(w == i as int);
                }
                return Some(v);
            }
            i += 1;
        }
        proof {
            assert(!self@.contains_key(addr));
        }
        None
    }

    /// Records `seqno` as the last-accepted number for `addr`,
    /// overwriting any previous record.
    pub fn record(&mut self, addr: PeerAddr, seqno: u64)
        requires
            old(self).wf(),
        ensures
            final(self)@ == old(self)@.insert(addr, seqno),
            final(self).wf(),
    {
        let ghost old_table = *self;
        let n = self.entries.len();
        let mut i: usize = 0;
        while i < n
            invariant
                i <= n,
                *self == old_table,
                old_table == *old(self),
                n == self.entries@.len(),
                table_inv(*self),
                forall|j: int| 0 <= j < i ==> (#[trigger] self.entries@[j]).0 != addr,
            decreases n - i,
        {
            let (k, _) = self.entries[i];
            if k == addr {
                self.entries.set(i, (addr, seqno));
                proof {
                    assert(forall|w: int|
                        0 <= w < self.entries@.len() ==> (#[trigger] self.entries@[w]).0 == (
                        #[trigger] old_table.entries@[w]).0);
                    assert(table_inv(*self));
                    assert forall|k2: PeerAddr| #[trigger]
                        self@.contains_key(k2) == old_table@.insert(addr, seqno).contains_key(
                            k2,
                        ) by {
                        if k2 == addr {
                            assert(self.entries@[i as int].0 == addr);
                            assert(self@.contains_key(addr));
                            assert(old_table@.insert(addr, seqno).contains_key(addr));
                        } else {
                            assert(self@.contains_key(k2) == (exists|w: int|
                                0 <= w < self.entries@.len() && self.entries@[w].0 == k2));
                            assert((exists|w: int|
                                0 <= w < self.entries@.len() && self.entries@[w].0 == k2) == (
                            exists|w: int|
                                0 <= w < old_table.entries@.len() && old_table.entries@[w].0
                                    == k2)) by {
                                if exists|w: int|
                                    0 <= w < self.entries@.len() && self.entries@[w].0 == k2 {
                                    let w = choose|w: int|
                                        0 <= w < self.entries@.len() && self.entries@[w].0 == k2;
                                    assert(old_table.entries@[w].0 == k2);
                                }
                                if exists|w: int|
                                    0 <= w < old_table.entries@.len() && old_table.entries@[w].0
                                        == k2 {
                                    let w = choose|w: int|
                                        0 <= w < old_table.entries@.len()
                                            && old_table.entries@[w].0 == k2;
                                    assert(self.entries@[w].0 == k2);
                                }
                            }
                            assert(old_table@.contains_key(k2) == (exists|w: int|
                                0 <= w < old_table.entries@.len() && old_table.entries@[w].0
                                    == k2));
                        }
                    }
                    assert forall|k2: PeerAddr|
                        self@.contains_key(k2) implies self@[k2] == old_table@.insert(
                        addr,
                        seqno,
                    )[k2] by {
                        let w = choose|w: int|
                            0 <= w < self.entries@.len() && self.entries@[w].0 == k2;
                        if k2 == addr {
                            assert(self.entries@[i as int].0 == addr);
                            assert(w == i as int);
                        } else {
                            assert(old_table.entries@[w].0 == k2);
                            let w2 = choose|w2: int|
                                0 <= w2 < old_table.entries@.len() && old_table.entries@[w2].0
                                    == k2;
                            assert(w2 == w);
                        }
                    }
                    assert(self@ =~= old_table@.insert(addr, seqno));
                }
                return ;
            }
            i += 1;
        }
        self.entries.push((addr, seqno));
        proof {
            assert(forall|j: int|
                0 <= j < old_table.entries@.len() ==> (#[trigger] self.entries@[j])
                    == old_table.entries@[j]);
            assert(self.entries@[old_table.entries@.len() as int] == (addr, seqno));
            assert(table_inv(*self));
            assert forall|k2: PeerAddr| #[trigger]
                self@.contains_key(k2) == old_table@.insert(addr, seqno).contains_key(k2) by {
                if k2 == addr {
                    assert(self.entries@[old_table.entries@.len() as int].0 == addr);
                    assert(exists|w: int|
                        0 <= w < self.entries@.len() && self.entries@[w].0 == addr);
                    assert(self@.contains_key(addr));
                    assert(old_table@.insert(addr, seqno).contains_key(addr));
                } else {
                    assert(self@.contains_key(k2) == (exists|w: int|
                        0 <= w < self.entries@.len() && self.entries@[w].0 == k2));
                    assert((exists|w: int| 0 <= w < self.entries@.len() && self.entries@[w].0 == k2)
                        == (exists|w: int|
                        0 <= w < old_table.entries@.len() && old_table.entries@[w].0 == k2)) by {
                        if exists|w: int|
                            0 <= w < self.entries@.len() && self.entries@[w].0 == k2 {
                            let w = choose|w: int|
                                0 <= w < self.entries@.len() && self.entries@[w].0 == k2;
                            assert(w < old_table.entries@.len());
                            assert(old_table.entries@[w].0 == k2);
                        }
                        if exists|w: int|
                            0 <= w < old_table.entries@.len() && old_table.entries@[w].0 == k2 {
                            let w = choose|w: int|
                                0 <= w < old_table.entries@.len() && old_table.entries@[w].0 == k2;
                            assert(self.entries@[w].0 == k2);
                        }
                    }
                    assert(old_table@.contains_key(k2) == (exists|w: int|
                        0 <= w < old_table.entries@.len() && old_table.entries@[w].0 == k2));
                }
            }
            assert forall|k2: PeerAddr|
                self@.contains_key(k2) implies self@[k2] == old_table@.insert(addr, seqno)[k2] by {
                let w = choose|w: int| 0 <= w < self.entries@.len() && self.entries@[w].0 == k2;
                if k2 == addr {
                    assert(w == old_table.entries@.len() as int) by {
                        assert(forall|j: int|
                            0 <= j < old_table.entries@.len() ==> (#[trigger] self.entries@[j]).0
                                != addr);
                    }
                } else {
                    assert(old_table.entries@[w].0 == k2);
                    let w2 = choose|w2: int|
                        0 <= w2 < old_table.entries@.len() && old_table.entries@[w2].0 == k2;
                    assert(w2 == w);
                }
            }
            assert(self@ =~= old_table@.insert(addr, seqno));
        }
    }

}

} // verus!
