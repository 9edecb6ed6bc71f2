//! The peer registry: the static map from process identifier to network
//! address, built once at startup and read-only afterwards. The local
//! process is excluded from the peer set; its identifier and address are
//! retained for comparisons and outgoing payloads.

use vstd::prelude::*;

verus! {

/// One known peer: its identifier and its network address.
#[derive(Debug)]
pub struct PeerInfo {
    pub id: u64,
    pub address: String,
}

/// Strictly ascending identifiers: sorted order and uniqueness in one.
pub open spec fn strictly_sorted_by_id(s: Seq<PeerInfo>) -> bool {
    forall|i: int, j: int| 0 <= i < j < s.len() ==> s[i].id < s[j].id
}

impl PeerInfo {
    /// A copy of this entry.
    pub fn duplicate(&self) -> (r: PeerInfo)
        ensures
            r == *self,
    {
        PeerInfo { id: self.id, address: self.address.clone() }
    }
}

/// The identifier-to-address table of every known peer, ordered by
/// identifier for deterministic iteration.
pub struct PeerRegistry {
    self_id: u64,
    self_address: String,
    peers: Vec<PeerInfo>,
}

impl PeerRegistry {
    /// The peers, in strictly ascending identifier order.
    pub closed spec fn peers_seq(&self) -> Seq<PeerInfo> {
        self.peers@
    }

    pub closed spec fn spec_self_id(&self) -> u64 {
        self.self_id
    }

    pub closed spec fn spec_self_address(&self) -> Seq<char> {
        self.self_address@
    }

    pub open spec fn wf(&self) -> bool {
        &&& strictly_sorted_by_id(self.peers_seq())
        &&& forall|i: int|
            0 <= i < self.peers_seq().len() ==> self.peers_seq()[i].id != self.spec_self_id()
    }

    /// Builds the registry from the externally supplied peer list and the
    /// local process's own identifier and address. Entries bearing the local
    /// identifier are excluded; everything else is kept, reordered by
    /// identifier.
    pub fn new(self_id: u64, self_address: String, entries: Vec<PeerInfo>) -> (r: PeerRegistry)
        requires
            forall|i: int, j: int|
                0 <= i < j < entries@.len() ==> entries@[i].id != entries@[j].id,
        ensures
            r.wf(),
            r.spec_self_id() == self_id,
            r.spec_self_address() == self_address@,
            forall|k: int|
                0 <= k < entries@.len() && entries@[k].id != self_id ==> r.peers_seq().contains(
                    entries@[k],
                ),
            forall|j: int|
                0 <= j < r.peers_seq().len() ==> entries@.contains(r.peers_seq()[j])
                    && r.peers_seq()[j].id != self_id,
    {
        let mut peers: Vec<PeerInfo> = Vec::new();
        let mut i: usize = 0;
        while i < entries.len()
            invariant
                0 <= i <= entries@.len(),
                forall|a: int, b: int|
                    0 <= a < b < entries@.len() ==> entries@[a].id != entries@[b].id,
                strictly_sorted_by_id(peers@),
                forall|j: int|
                    0 <= j < peers@.len() ==> #[trigger] peers@[j].id != self_id,
                forall|j: int|
                    0 <= j < peers@.len() ==> exists|k: int|
                        0 <= k < i && #[trigger] peers@[j] == #[trigger] entries@[k],
                forall|k: int|
                    0 <= k < i && entries@[k].id != self_id ==> peers@.contains(#[trigger] entries@[k]),
            decreases entries@.len() - i,
        {
            let p = entries[i].duplicate();
            if p.id != self_id {
                proof {
                    assert forall|j: int| 0 <= j < peers@.len() implies #[trigger] peers@[j].id
                        != p.id by {
                        let k = choose|k: int| 0 <= k < i && peers@[j] == entries@[k];
                        assert(entries@[k].id != entries@[i as int].id);
                    }
                }
                insert_sorted(&mut peers, p);
            }
            i = i + 1;
        }
        PeerRegistry { self_id, self_address, peers }
    }

    /// The local process's identifier.
    pub fn self_id(&self) -> (r: u64)
        ensures
            r == self.spec_self_id(),
    {
        self.self_id
    }

    /// The local process's address.
    pub fn self_address(&self) -> (r: &String)
        ensures
            r@ == self.spec_self_address(),
    {
        &self.self_address
    }

    /// The peer with the given identifier, if one is known.
    pub fn lookup(&self, id: u64) -> (r: Option<PeerInfo>)
        requires
            self.wf(),
        ensures
            match r {
                Some(p) => p.id == id && self.peers_seq().contains(p),
                None => forall|j: int| 0 <= j < self.peers_seq().len() ==> self.peers_seq()[j].id != id,
            },
    {
        let mut i: usize = 0;
        while i < self.peers.len()
            invariant
                0 <= i <= self.peers@.len(),
                forall|j: int| 0 <= j < i ==> self.peers@[j].id != id,
            decreases self.peers@.len() - i,
        {
            if self.peers[i].id == id {
                let p = self.peers[i].duplicate();
                return Some(p);
            }
            i = i + 1;
        }
        None
    }

    /// Every peer whose identifier exceeds `id`, in ascending identifier
    /// order: the recipients of an `Election` round started by `id`.
    pub fn peers_with_id_greater_than(&self, id: u64) -> (r: Vec<PeerInfo>)
        requires
            self.wf(),
        ensures
            strictly_sorted_by_id(r@),
            forall|j: int|
                0 <= j < r@.len() ==> r@[j].id > id && self.peers_seq().contains(#[trigger] r@[j]),
            forall|k: int|
                0 <= k < self.peers_seq().len() && self.peers_seq()[k].id > id
                    ==> r@.contains(#[trigger] self.peers_seq()[k]),
    {
        let mut r: Vec<PeerInfo> = Vec::new();
        let mut i: usize = 0;
        while i < self.peers.len()
            invariant
                0 <= i <= self.peers@.len(),
                self.wf(),
                strictly_sorted_by_id(r@),
                forall|j: int|
                    0 <= j < r@.len() ==> r@[j].id > id && exists|t: int|
                        0 <= t < i && #[trigger] r@[j] == self.peers@[t],
                forall|k: int|
                    0 <= k < i && self.peers@[k].id > id ==> r@.contains(
                        #[trigger] self.peers@[k],
                    ),
            decreases self.peers@.len() - i,
        {
            if self.peers[i].id > id {
                let p = self.peers[i].duplicate();
                proof {
                    assert forall|j: int| 0 <= j < r@.len() implies #[trigger] r@[j].id
                        < p.id by {
                        let t = choose|t: int| 0 <= t < i && r@[j] == self.peers@[t];
                        assert(self.peers@[t].id < self.peers@[i as int].id);
                    }
                }
                let ghost pre = r@;
                r.push(p);
                proof {
                    assert(r@ =~= pre.push(p));
                    assert forall|k: int| 0 <= k < i && self.peers@[k].id > id implies r@.contains(
                        #[trigger] self.peers@[k],
                    ) by {
                        let w = choose|w: int| 0 <= w < pre.len() && pre[w] == self.peers@[k];
                        assert(r@[w] == self.peers@[k]);
                    }
                    assert(r@[pre.len() as int] == self.peers@[i as int]);
                    assert(r@.contains(self.peers@[i as int]));
                }
            }
            i = i + 1;
        }
        proof {
            assert forall|j: int| 0 <= j < r@.len() implies self.peers_seq().contains(
                #[trigger] r@[j],
            ) by {
                let t = choose|t: int| 0 <= t < i && r@[j] == self.peers@[t];
                assert(self.peers@[t] == r@[j]);
            }
        }
        r
    }

    /// Every peer whose identifier is below `id`, in ascending identifier
    /// order.
    pub fn peers_with_id_less_than(&self, id: u64) -> (r: Vec<PeerInfo>)
        requires
            self.wf(),
        ensures
            strictly_sorted_by_id(r@),
            forall|j: int|
                0 <= j < r@.len() ==> r@[j].id < id && self.peers_seq().contains(#[trigger] r@[j]),
            forall|k: int|
                0 <= k < self.peers_seq().len() && self.peers_seq()[k].id < id
                    ==> r@.contains(#[trigger] self.peers_seq()[k]),
    {
        let mut r: Vec<PeerInfo> = Vec::new();
        let mut i: usize = 0;
        while i < self.peers.len()
            invariant
                0 <= i <= self.peers@.len(),
                self.wf(),
                strictly_sorted_by_id(r@),
                forall|j: int|
                    0 <= j < r@.len() ==> r@[j].id < id && exists|t: int|
                        0 <= t < i && #[trigger] r@[j] == self.peers@[t],
                forall|k: int|
                    0 <= k < i && self.peers@[k].id < id ==> r@.contains(
                        #[trigger] self.peers@[k],
                    ),
            decreases self.peers@.len() - i,
        {
            if self.peers[i].id < id {
                let p = self.peers[i].duplicate();
                proof {
                    assert forall|j: int| 0 <= j < r@.len() implies #[trigger] r@[j].id
                        < p.id by {
                        let t = choose|t: int| 0 <= t < i && r@[j] == self.peers@[t];
                        assert(self.peers@[t].id < self.peers@[i as int].id);
                    }
                }
                let ghost pre = r@;
                r.push(p);
                proof {
                    assert(r@ =~= pre.push(p));
                    assert forall|k: int| 0 <= k < i && self.peers@[k].id < id implies r@.contains(
                        #[trigger] self.peers@[k],
                    ) by {
                        let w = choose|w: int| 0 <= w < pre.len() && pre[w] == self.peers@[k];
                        assert(r@[w] == self.peers@[k]);
                    }
                    assert(r@[pre.len() as int] == self.peers@[i as int]);
                    assert(r@.contains(self.peers@[i as int]));
                }
            }
            i = i + 1;
        }
        proof {
            assert forall|j: int| 0 <= j < r@.len() implies self.peers_seq().contains(
                #[trigger] r@[j],
            ) by {
                let t = choose|t: int| 0 <= t < i && r@[j] == self.peers@[t];
                assert(self.peers@[t] == r@[j]);
            }
        }
        r
    }

    /// The identifiers of all peers, ascending: the shape the election state
    /// machine consumes.
    pub fn peer_ids(&self) -> (r: Vec<u64>)
        requires
            self.wf(),
        ensures
            r@.len() == self.peers_seq().len(),
            forall|j: int| 0 <= j < r@.len() ==> r@[j] == self.peers_seq()[j].id,
            forall|i: int, j: int| 0 <= i < j < r@.len() ==> r@[i] < r@[j],
            forall|j: int| 0 <= j < r@.len() ==> r@[j] != self.spec_self_id(),
    {
        let mut r: Vec<u64> = Vec::new();
        let mut i: usize = 0;
        while i < self.peers.len()
            invariant
                0 <= i <= self.peers@.len(),
                self.wf(),
                r@.len() == i,
                forall|j: int| 0 <= j < i ==> r@[j] == self.peers@[j].id,
            decreases self.peers@.len() - i,
        {
            r.push(self.peers[i].id);
            i = i + 1;
        }
        r
    }
}

/// Inserts `p` into a strictly sorted vector, keeping it strictly sorted.
fn insert_sorted(v: &mut Vec<PeerInfo>, p: PeerInfo)
    requires
        strictly_sorted_by_id(old(v)@),
        forall|j: int| 0 <= j < old(v)@.len() ==> #[trigger] old(v)@[j].id != p.id,
    ensures
        final(v)@.len() == old(v)@.len() + 1,
        strictly_sorted_by_id(final(v)@),
        final(v)@.contains(p),
        forall|j: int| 0 <= j < old(v)@.len() ==> final(v)@.contains(#[trigger] old(v)@[j]),
        forall|j: int|
            0 <= j < final(v)@.len() ==> final(v)@[j] == p || old(v)@.contains(
                #[trigger] final(v)@[j],
            ),
{
    let mut idx: usize = 0;
    while idx < v.len() && v[idx].id < p.id
        invariant
            0 <= idx <= v@.len(),
            forall|j: int| 0 <= j < idx ==> #[trigger] v@[j].id < p.id,
            v == old(v),
        decreases v@.len() - idx,
    {
        idx = idx + 1;
    }
    let ghost pre = v@;
    let ghost pos = idx as int;
    v.insert(idx, p);
    proof {
        assert(v@ =~= pre.take(pos) + seq![p] + pre.skip(pos));
        assert forall|j: int| 0 <= j < pre.len() implies v@.contains(#[trigger] pre[j]) by {
            if j < pos {
                assert(v@[j] == pre[j]);
            } else {
                assert(v@[j + 1] == pre[j]);
            }
        }
        assert(v@[pos] == p);
    }
}

} // verus!
