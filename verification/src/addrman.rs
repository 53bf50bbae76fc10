//! Which peers are known, and which of them to connect to.

use crate::addr::SocketAddr;
use crate::buckets::{is_least_recently_tried, is_oldest, lists, BucketTable};
use crate::peer_info::PeerInfo;
use crate::sources::{peers_from, SourceIndex};
use vstd::prelude::*;

verus! {

/// What an address manager knows.
#[verifier::ext_equal]
pub struct KnownPeers {
    /// Peers we have successfully connected to, by address
    pub tried: Map<SocketAddr, PeerInfo>,
    /// Peers we know about but haven't connected to, by address
    pub new: Map<SocketAddr, PeerInfo>,
    /// Source peers and the peers they told us about
    pub source_peers: Map<SocketAddr, Set<SocketAddr>>,
    /// Maximum number of peers to keep in the tried set
    pub max_tried_peers: nat,
    /// Maximum number of peers to keep in the new set
    pub max_new_peers: nat,
}

/// What is left of a set of peers once its limit is enforced: all of it where it is within
/// the limit, and otherwise all but one of its oldest peers.
pub open spec fn trimmed(
    full: Map<SocketAddr, PeerInfo>,
    limit: nat,
    kept: Map<SocketAddr, PeerInfo>,
) -> bool {
    if full.len() <= limit {
        kept == full
    } else {
        exists|addr: SocketAddr| #[trigger] is_oldest(full, addr) && kept == full.remove(addr)
    }
}

impl KnownPeers {
    /// Peers are filed under their own address, `is_tried` says which set a peer is in,
    /// no peer is in both sets, neither set exceeds its limit, and whoever told us of a
    /// peer is on record.
    pub open spec fn valid(self) -> bool {
        &&& self.tried.dom().finite()
        &&& self.new.dom().finite()
        &&& self.tried.len() <= self.max_tried_peers
        &&& self.new.len() <= self.max_new_peers
        &&& forall|addr: SocketAddr| #[trigger]
            self.tried.contains_key(addr) ==> {
                &&& self.tried[addr].addr == addr
                &&& self.tried[addr].is_tried
                &&& !self.new.contains_key(addr)
                &&& peers_from(self.source_peers, self.tried[addr].source).contains(addr)
            }
        &&& forall|addr: SocketAddr| #[trigger]
            self.new.contains_key(addr) ==> {
                &&& self.new[addr].addr == addr
                &&& !self.new[addr].is_tried
                &&& !self.tried.contains_key(addr)
                &&& peers_from(self.source_peers, self.new[addr].source).contains(addr)
            }
    }

    /// The peers of both sets.
    pub open spec fn everyone(self) -> Map<SocketAddr, PeerInfo> {
        self.tried.union_prefer_right(self.new)
    }

    /// The record that is kept of a peer just heard of: what was heard, except that hearsay
    /// about a peer that we have tried ourselves tells us no more than its services.
    pub open spec fn record_of(self, peer: PeerInfo) -> PeerInfo {
        if !peer.is_tried && self.tried.contains_key(peer.addr) {
            PeerInfo { services: peer.services, ..self.tried[peer.addr] }
        } else {
            peer
        }
    }

    /// Hearing of `peer` may turn `self` into `after`: its record takes the place of any
    /// earlier one, in the set that it belongs in, and that set is held to its limit. A new
    /// peer for which the tried set has no room stays in the new set as it was.
    pub open spec fn learns(self, peer: PeerInfo, after: Self) -> bool {
        let record = self.record_of(peer);
        &&& after.max_tried_peers == self.max_tried_peers
        &&& after.max_new_peers == self.max_new_peers
        &&& after.source_peers == self.source_peers.insert(
            peer.source,
            peers_from(self.source_peers, peer.source).insert(peer.addr),
        )
        &&& if record.is_tried {
            &&& trimmed(self.tried.insert(peer.addr, record), self.max_tried_peers, after.tried)
            &&& after.new == (if after.tried.contains_key(peer.addr) {
                self.new.remove(peer.addr)
            } else {
                self.new
            })
        } else {
            &&& after.tried == self.tried
            &&& trimmed(self.new.insert(peer.addr, record), self.max_new_peers, after.new)
        }
    }
}

/// What trimming leaves is within the limit, if the set was over it by at most one.
proof fn lemma_trimmed(
    full: Map<SocketAddr, PeerInfo>,
    limit: nat,
    kept: Map<SocketAddr, PeerInfo>,
)
    requires
        full.dom().finite(),
        full.len() <= limit + 1,
        trimmed(full, limit, kept),
    ensures
        kept.dom().finite(),
        kept.len() <= limit,
        forall|addr: SocketAddr| #[trigger]
            kept.contains_key(addr) ==> full.contains_key(addr) && kept[addr] == full[addr],
{
    if full.len() > limit {
        let addr = choose|addr: SocketAddr| #[trigger]
            is_oldest(full, addr) && kept == full.remove(addr);
        assert(kept.dom() =~= full.dom().remove(addr));
    }
}

/// Whatever peer is heard of, validity is kept: no limit is ever exceeded, no peer is ever
/// in both sets, and every peer's source is on record.
pub proof fn law_learning_keeps_validity(before: KnownPeers, peer: PeerInfo, after: KnownPeers)
    requires
        before.valid(),
        before.learns(peer, after),
    ensures
        after.valid(),
{
    let record = before.record_of(peer);
    if record.is_tried {
        let full = before.tried.insert(peer.addr, record);
        assert(full.dom() =~= before.tried.dom().insert(peer.addr));
        lemma_trimmed(full, before.max_tried_peers, after.tried);
        assert(before.new.remove(peer.addr).dom() =~= before.new.dom().remove(peer.addr));
    } else {
        let full = before.new.insert(peer.addr, record);
        assert(full.dom() =~= before.new.dom().insert(peer.addr));
        lemma_trimmed(full, before.max_new_peers, after.new);
    }
}

/// Manages known peers and their selection
pub struct AddrMan {
    /// Peers we have successfully connected to
    tried: BucketTable,
    /// Peers we know about but haven't connected to
    new: BucketTable,
    /// Map of source peers to the peers they told us about
    source_peers: SourceIndex,
    /// Maximum number of peers to keep in the tried set
    max_tried_peers: usize,
    /// Maximum number of peers to keep in the new set
    max_new_peers: usize,
}

impl View for AddrMan {
    type V = KnownPeers;

    closed spec fn view(&self) -> KnownPeers {
        KnownPeers {
            tried: self.tried@,
            new: self.new@,
            source_peers: self.source_peers@,
            max_tried_peers: self.max_tried_peers as nat,
            max_new_peers: self.max_new_peers as nat,
        }
    }
}

impl AddrMan {
    /// The tables are in order, and what they hold is valid.
    pub closed spec fn wf(&self) -> bool {
        &&& self.tried.wf()
        &&& self.new.wf()
        &&& self.source_peers.wf()
        &&& self@.valid()
    }

    /// A manager in order knows what is valid: within its limits, each peer in one set.
    pub proof fn law_wf_means_valid(&self)
        requires
            self.wf(),
        ensures
            self@.valid(),
    {
    }

    /// An address manager that knows of no peer yet.
    pub fn new(max_tried_peers: usize, max_new_peers: usize) -> (manager: Self)
        ensures
            manager.wf(),
            manager@ == (KnownPeers {
                tried: Map::empty(),
                new: Map::empty(),
                source_peers: Map::empty(),
                max_tried_peers: max_tried_peers as nat,
                max_new_peers: max_new_peers as nat,
            }),
    {
        AddrMan {
            tried: BucketTable::new(),
            new: BucketTable::new(),
            source_peers: SourceIndex::new(),
            max_tried_peers,
            max_new_peers,
        }
    }

    /// Add a new peer to the address manager
    pub fn add_peer(&mut self, peer: PeerInfo)
        requires
            old(self).wf(),
        ensures
            final(self).wf(),
            old(self)@.learns(peer, final(self)@),
    {
        let ghost before = self@;
        let known = self.tried.get(&peer.addr);
        let record = match known {
            Some(tried) if !peer.is_tried => PeerInfo { services: peer.services, ..tried },
            _ => peer,
        };
        assert(record == before.record_of(peer));
        if record.is_tried {
            let overfull = known.is_none() && self.tried.count() >= self.max_tried_peers;
            self.tried.insert(record);
            let ghost full = self.tried@;
            assert(full.dom() =~= before.tried.dom().insert(peer.addr));
            assert(overfull == (full.len() > self.max_tried_peers));
            if overfull {
                self.remove_oldest_tried();
            }
            assert(trimmed(full, before.max_tried_peers, self.tried@));
            if self.tried.get(&peer.addr).is_some() {
                self.new.remove(peer.addr);
            }
        } else {
            let overfull = self.new.get(&peer.addr).is_none() && self.new.count()
                >= self.max_new_peers;
            self.new.insert(record);
            let ghost full = self.new@;
            assert(full.dom() =~= before.new.dom().insert(peer.addr));
            assert(overfull == (full.len() > self.max_new_peers));
            if overfull {
                self.remove_oldest_new();
            }
            assert(trimmed(full, before.max_new_peers, self.new@));
        }
        // Update source tracking
        self.source_peers.record(peer.source, peer.addr);
        proof {
            law_learning_keeps_validity(before, peer, self@);
        }
    }

    /// Remove the oldest peer from the tried set
    fn remove_oldest_tried(&mut self)
        requires
            old(self).tried.wf(),
        ensures
            final(self).tried.wf(),
            final(self).new == old(self).new,
            final(self).source_peers == old(self).source_peers,
            final(self).max_tried_peers == old(self).max_tried_peers,
            final(self).max_new_peers == old(self).max_new_peers,
            old(self)@.tried == Map::<SocketAddr, PeerInfo>::empty() ==> final(self)@.tried == old(
                self,
            )@.tried,
            old(self)@.tried != Map::<SocketAddr, PeerInfo>::empty() ==> exists|addr: SocketAddr|
                #[trigger]
                is_oldest(old(self)@.tried, addr) && final(self)@.tried == old(self)@.tried.remove(
                    addr,
                ),
    {
        self.tried.remove_oldest();
    }

    /// Remove the oldest peer from the new set
    fn remove_oldest_new(&mut self)
        requires
            old(self).new.wf(),
        ensures
            final(self).new.wf(),
            final(self).tried == old(self).tried,
            final(self).source_peers == old(self).source_peers,
            final(self).max_tried_peers == old(self).max_tried_peers,
            final(self).max_new_peers == old(self).max_new_peers,
            old(self)@.new == Map::<SocketAddr, PeerInfo>::empty() ==> final(self)@.new == old(
                self,
            )@.new,
            old(self)@.new != Map::<SocketAddr, PeerInfo>::empty() ==> exists|addr: SocketAddr|
                #[trigger]
                is_oldest(old(self)@.new, addr) && final(self)@.new == old(self)@.new.remove(addr),
    {
        self.new.remove_oldest();
    }

    /// Get a peer to connect to: one of the tried peers where there are any, and otherwise
    /// one of the new ones; of these, one that was tried longest ago.
    pub fn select_peer(&self) -> (selected: Option<SocketAddr>)
        requires
            self.wf(),
        ensures
            match selected {
                Some(addr) => if self@.tried == Map::<SocketAddr, PeerInfo>::empty() {
                    is_least_recently_tried(self@.new, addr)
                } else {
                    is_least_recently_tried(self@.tried, addr)
                },
                None => {
                    &&& self@.tried == Map::<SocketAddr, PeerInfo>::empty()
                    &&& self@.new == Map::<SocketAddr, PeerInfo>::empty()
                },
            },
    {
        // First try to find a peer from the tried set
        if let Some(peer) = self.select_tried_peer() {
            return Some(peer);
        }
        // If no tried peers are available, try the new set
        self.select_new_peer()
    }

    /// Select a peer from the tried set
    fn select_tried_peer(&self) -> (selected: Option<SocketAddr>)
        requires
            self.wf(),
        ensures
            selected is None <==> self@.tried == Map::<SocketAddr, PeerInfo>::empty(),
            selected matches Some(addr) ==> is_least_recently_tried(self@.tried, addr),
    {
        self.tried.least_recently_tried()
    }

    /// Select a peer from the new set
    fn select_new_peer(&self) -> (selected: Option<SocketAddr>)
        requires
            self.wf(),
        ensures
            selected is None <==> self@.new == Map::<SocketAddr, PeerInfo>::empty(),
            selected matches Some(addr) ==> is_least_recently_tried(self@.new, addr),
    {
        self.new.least_recently_tried()
    }

    /// Get all known peers: the tried ones first, then the new ones
    pub fn get_all_peers(&self) -> (peers: Vec<&PeerInfo>)
        requires
            self.wf(),
        ensures
            peers@.len() == self@.tried.len() + self@.new.len(),
            lists(peers@.unref().take(self@.tried.len() as int), self@.tried),
            lists(peers@.unref().skip(self@.tried.len() as int), self@.new),
            lists(peers@.unref(), self@.everyone()),
    {
        let mut peers = self.tried.records();
        let ghost first = peers@.unref();
        let new_peers = self.new.records();
        let ghost second = new_peers@.unref();
        let mut i: usize = 0;
        while i < new_peers.len()
            invariant
                i <= new_peers.len(),
                second == new_peers@.unref(),
                peers@.unref() == first + second.take(i as int),
            decreases new_peers.len() - i,
        {
            let ghost so_far = peers@;
            peers.push(new_peers[i]);
            proof {
                assert(peers@.unref() =~= so_far.unref().push(second[i as int]));
                assert(second.take(i + 1) =~= second.take(i as int).push(second[i as int]));
                assert(peers@.unref() =~= first + second.take(i + 1));
            }
            i = i + 1;
        }
        proof {
            assert(second.take(i as int) =~= second);
            crate::buckets::lemma_lists_len(first, self@.tried);
            crate::buckets::lemma_lists_len(second, self@.new);
            assert(peers@.unref().take(self@.tried.len() as int) =~= first);
            assert(peers@.unref().skip(self@.tried.len() as int) =~= second);
            lemma_lists_both(first, self@.tried, second, self@.new);
        }
        peers
    }

    /// Get the number of peers in the tried set
    pub fn tried_peer_count(&self) -> (n: usize)
        requires
            self.wf(),
        ensures
            n == self@.tried.len(),
    {
        self.tried.count()
    }

    /// Get the number of peers in the new set
    pub fn new_peer_count(&self) -> (n: usize)
        requires
            self.wf(),
        ensures
            n == self@.new.len(),
    {
        self.new.count()
    }
}

/// Lists of two maps that share no key, one after the other, list the union.
proof fn lemma_lists_both(
    first: Seq<PeerInfo>,
    left: Map<SocketAddr, PeerInfo>,
    second: Seq<PeerInfo>,
    right: Map<SocketAddr, PeerInfo>,
)
    requires
        lists(first, left),
        lists(second, right),
        forall|addr: SocketAddr| #[trigger]
            left.contains_key(addr) ==> !right.contains_key(addr),
    ensures
        lists(first + second, left.union_prefer_right(right)),
{
    let all = first + second;
    let both = left.union_prefer_right(right);
    assert forall|i: int| 0 <= i < all.len() implies both.contains_key((#[trigger] all[i]).addr)
        && both[all[i].addr] == all[i] by {
        if i < first.len() {
            assert(all[i] == first[i]);
            assert(left.contains_key(first[i].addr));
        } else {
            assert(all[i] == second[i - first.len()]);
            assert(right.contains_key(all[i].addr));
        }
    }
    assert forall|i: int, j: int| 0 <= i < j < all.len() implies (#[trigger] all[i]).addr != (
    #[trigger] all[j]).addr by {
        if j < first.len() {
            assert(all[i] == first[i] && all[j] == first[j]);
        } else if i < first.len() {
            assert(all[i] == first[i] && all[j] == second[j - first.len()]);
            assert(left.contains_key(first[i].addr));
            assert(right.contains_key(all[j].addr));
        } else {
            assert(all[i] == second[i - first.len()] && all[j] == second[j - first.len()]);
        }
    }
    assert forall|addr: SocketAddr| #[trigger] both.contains_key(addr) implies crate::buckets::mentions(
        all,
        addr,
    ) by {
        if right.contains_key(addr) {
            let i = crate::buckets::index_of(second, addr);
            assert(crate::buckets::mentions(second, addr));
            assert(all[first.len() + i] == second[i]);
        } else {
            assert(left.contains_key(addr));
            assert(crate::buckets::mentions(first, addr));
            let i = crate::buckets::index_of(first, addr);
            assert(all[i] == first[i]);
        }
    }
}

} // verus!
