//! What holds of an address manager over one or several calls.

use crate::addr::SocketAddr;
use crate::addrman::{law_learning_keeps_validity, trimmed, AddrMan, KnownPeers};
use crate::buckets::{
    distinct_addrs, index_of, is_least_recently_tried, is_oldest, lists, mentions,
};
use crate::peer_info::PeerInfo;
use crate::sources::peers_from;
use vstd::prelude::*;

verus! {

/// A peer of an address not known before, whose set is not full, is simply added: its
/// record is kept as it is, and nothing else changes in either set.
pub proof fn law_fresh_peer_is_added(before: KnownPeers, peer: PeerInfo, after: KnownPeers)
    requires
        before.valid(),
        before.learns(peer, after),
        !before.everyone().contains_key(peer.addr),
        if peer.is_tried {
            before.tried.len() < before.max_tried_peers
        } else {
            before.new.len() < before.max_new_peers
        },
    ensures
        peer.is_tried ==> after.tried == before.tried.insert(peer.addr, peer) && after.new
            == before.new,
        !peer.is_tried ==> after.new == before.new.insert(peer.addr, peer) && after.tried
            == before.tried,
        after.tried.len() + after.new.len() == before.tried.len() + before.new.len() + 1,
{
    assert(before.record_of(peer) == peer);
    assert(!before.tried.contains_key(peer.addr) && !before.new.contains_key(peer.addr));
    assert(before.new.remove(peer.addr) =~= before.new);
    assert(before.tried.insert(peer.addr, peer).dom() =~= before.tried.dom().insert(peer.addr));
    assert(before.new.insert(peer.addr, peer).dom() =~= before.new.dom().insert(peer.addr));
}

/// Hearing again of a peer, in the set that it is already in, leaves one record of it, with
/// the services heard last, and changes no other record.
pub proof fn law_duplicate_replaces(before: KnownPeers, peer: PeerInfo, after: KnownPeers)
    requires
        before.valid(),
        before.learns(peer, after),
        before.tried.contains_key(peer.addr) || (!peer.is_tried && before.new.contains_key(
            peer.addr,
        )),
    ensures
        after.everyone() == before.everyone().insert(peer.addr, before.record_of(peer)),
        after.everyone()[peer.addr].services == peer.services,
        after.tried.len() == before.tried.len(),
        after.new.len() == before.new.len(),
{
    let record = before.record_of(peer);
    if before.tried.contains_key(peer.addr) {
        assert(before.tried.insert(peer.addr, record).dom() =~= before.tried.dom());
        assert(before.new.remove(peer.addr) =~= before.new);
    } else {
        assert(before.new.insert(peer.addr, record).dom() =~= before.new.dom());
    }
    assert(after.everyone() =~= before.everyone().insert(peer.addr, record));
}

/// A new peer that is heard of as tried moves to the tried set, as long as that has room.
pub proof fn law_connecting_promotes(before: KnownPeers, peer: PeerInfo, after: KnownPeers)
    requires
        before.valid(),
        before.learns(peer, after),
        peer.is_tried,
        before.new.contains_key(peer.addr),
        before.tried.len() < before.max_tried_peers,
    ensures
        after.tried == before.tried.insert(peer.addr, peer),
        after.new == before.new.remove(peer.addr),
        after.tried.len() == before.tried.len() + 1,
        after.new.len() == before.new.len() - 1,
{
    assert(before.record_of(peer) == peer);
    assert(before.tried.insert(peer.addr, peer).dom() =~= before.tried.dom().insert(peer.addr));
    assert(before.new.remove(peer.addr).dom() =~= before.new.dom().remove(peer.addr));
}

/// A tried peer that is heard of again stays in the tried set; hearsay leaves all of its
/// record but the services as it was, when we last connected and tried to among the rest.
pub proof fn law_tried_stays_tried(before: KnownPeers, peer: PeerInfo, after: KnownPeers)
    requires
        before.valid(),
        before.learns(peer, after),
        before.tried.contains_key(peer.addr),
    ensures
        after.tried.contains_key(peer.addr),
        !after.new.contains_key(peer.addr),
        !peer.is_tried ==> after.tried[peer.addr] == (PeerInfo {
            services: peer.services,
            ..before.tried[peer.addr]
        }),
{
    let record = before.record_of(peer);
    assert(before.tried.insert(peer.addr, record).dom() =~= before.tried.dom());
}

/// A known peer that is heard of again stays known: if the tried set has no room for it, it
/// stays in the new set as it was.
pub proof fn law_known_peer_stays_known(before: KnownPeers, peer: PeerInfo, after: KnownPeers)
    requires
        before.valid(),
        before.learns(peer, after),
        before.everyone().contains_key(peer.addr),
    ensures
        after.everyone().contains_key(peer.addr),
        !after.tried.contains_key(peer.addr) && peer.is_tried ==> after.new == before.new,
{
    if before.tried.contains_key(peer.addr) {
        law_tried_stays_tried(before, peer, after);
    } else if !peer.is_tried {
        law_duplicate_replaces(before, peer, after);
    }
}

/// The record of another peer is never changed by hearing of one, and it is lost only
/// where its set was full and it was one of the oldest there.
pub proof fn law_others_survive(
    before: KnownPeers,
    peer: PeerInfo,
    after: KnownPeers,
    other: SocketAddr,
)
    requires
        before.valid(),
        before.learns(peer, after),
        other != peer.addr,
    ensures
        after.everyone().contains_key(other) ==> before.everyone().contains_key(other)
            && after.everyone()[other] == before.everyone()[other],
        before.tried.contains_key(other) ==> after.tried.contains_key(other) || (
        before.tried.len() == before.max_tried_peers && is_oldest(before.tried, other)),
        before.new.contains_key(other) ==> after.new.contains_key(other) || (before.new.len()
            == before.max_new_peers && is_oldest(before.new, other)),
{
    let record = before.record_of(peer);
    if record.is_tried {
        let full = before.tried.insert(peer.addr, record);
        assert(full.dom() =~= before.tried.dom().insert(peer.addr));
        lemma_lost_is_oldest(before.tried, peer.addr, record, before.max_tried_peers, after.tried, other);
    } else {
        let full = before.new.insert(peer.addr, record);
        assert(full.dom() =~= before.new.dom().insert(peer.addr));
        lemma_lost_is_oldest(before.new, peer.addr, record, before.max_new_peers, after.new, other);
    }
}

proof fn lemma_lost_is_oldest(
    set: Map<SocketAddr, PeerInfo>,
    addr: SocketAddr,
    record: PeerInfo,
    limit: nat,
    kept: Map<SocketAddr, PeerInfo>,
    other: SocketAddr,
)
    requires
        set.dom().finite(),
        set.len() <= limit,
        trimmed(set.insert(addr, record), limit, kept),
        other != addr,
    ensures
        kept.contains_key(other) ==> set.contains_key(other) && kept[other] == set[other],
        set.contains_key(other) && !kept.contains_key(other) ==> set.len() == limit && is_oldest(
            set,
            other,
        ),
{
    let full = set.insert(addr, record);
    assert(full.dom() =~= set.dom().insert(addr));
    if set.contains_key(other) && !kept.contains_key(other) {
        let lost = choose|lost: SocketAddr| #[trigger]
            is_oldest(full, lost) && kept == full.remove(lost);
        assert(lost == other);
        assert(!set.contains_key(addr));
        assert forall|third: SocketAddr| #[trigger] set.contains_key(third) implies set[other].last_seen
            <= set[third].last_seen by {
            assert(full.contains_key(third));
        }
    }
}

/// Where a full set takes in a peer of an address that was not in it, exactly one peer
/// leaves it, one that was seen no later than any that stays.
pub proof fn law_full_set_drops_an_oldest(
    before: KnownPeers,
    peer: PeerInfo,
    after: KnownPeers,
)
    requires
        before.valid(),
        before.learns(peer, after),
        !before.tried.contains_key(peer.addr),
        peer.is_tried ==> before.tried.len() == before.max_tried_peers,
        !peer.is_tried ==> !before.new.contains_key(peer.addr) && before.new.len()
            == before.max_new_peers,
    ensures
        peer.is_tried ==> after.tried.len() == before.max_tried_peers && exists|lost: SocketAddr|
            #[trigger] is_oldest(before.tried.insert(peer.addr, peer), lost) && after.tried
                == before.tried.insert(peer.addr, peer).remove(lost),
        !peer.is_tried ==> after.new.len() == before.max_new_peers && exists|lost: SocketAddr|
            #[trigger] is_oldest(before.new.insert(peer.addr, peer), lost) && after.new
                == before.new.insert(peer.addr, peer).remove(lost),
{
    assert(before.record_of(peer) == peer);
    if peer.is_tried {
        let full = before.tried.insert(peer.addr, peer);
        assert(full.dom() =~= before.tried.dom().insert(peer.addr));
        let lost = choose|lost: SocketAddr| #[trigger]
            is_oldest(full, lost) && after.tried == full.remove(lost);
        assert(after.tried.dom() =~= full.dom().remove(lost));
    } else {
        let full = before.new.insert(peer.addr, peer);
        assert(full.dom() =~= before.new.dom().insert(peer.addr));
        let lost = choose|lost: SocketAddr| #[trigger]
            is_oldest(full, lost) && after.new == full.remove(lost);
        assert(after.new.dom() =~= full.dom().remove(lost));
    }
}

/// A peer's source is on record from then on: what a source told us is never forgotten.
pub proof fn law_sources_only_grow(
    before: KnownPeers,
    peer: PeerInfo,
    after: KnownPeers,
    source: SocketAddr,
    addr: SocketAddr,
)
    requires
        before.learns(peer, after),
    ensures
        peers_from(after.source_peers, source).contains(addr) <==> peers_from(
            before.source_peers,
            source,
        ).contains(addr) || (source == peer.source && addr == peer.addr),
{
}

/// `states` is a history: each peer in turn is heard of, starting from the first state.
pub open spec fn history(states: Seq<KnownPeers>, peers: Seq<PeerInfo>) -> bool {
    &&& states.len() == peers.len() + 1
    &&& forall|i: int|
        0 <= i < peers.len() ==> (#[trigger] states[i]).learns(peers[i], states[i + 1])
}

/// Over any number of calls, from any valid start, validity is kept and the limits stay
/// what they were.
pub proof fn law_history_keeps_validity(states: Seq<KnownPeers>, peers: Seq<PeerInfo>, n: int)
    requires
        history(states, peers),
        states[0].valid(),
        0 <= n < states.len(),
    ensures
        states[n].valid(),
        states[n].max_tried_peers == states[0].max_tried_peers,
        states[n].max_new_peers == states[0].max_new_peers,
    decreases n,
{
    if n > 0 {
        law_history_keeps_validity(states, peers, n - 1);
        assert(states[n - 1].learns(peers[n - 1], states[n - 1 + 1]));
        law_learning_keeps_validity(states[n - 1], peers[n - 1], states[n]);
    }
}

/// How many of the peers are tried, or not tried.
pub open spec fn count_tried(peers: Seq<PeerInfo>, tried: bool) -> nat {
    peers.filter(|peer: PeerInfo| peer.is_tried == tried).len()
}

/// Peers of different addresses that together fit into the limits are all known in the
/// end, each with the record that was given, and no others are: none is lost, doubled or
/// altered.
pub proof fn law_peers_within_limits_are_all_kept(states: Seq<KnownPeers>, peers: Seq<PeerInfo>)
    requires
        history(states, peers),
        states[0].tried == Map::<SocketAddr, PeerInfo>::empty(),
        states[0].new == Map::<SocketAddr, PeerInfo>::empty(),
        distinct_addrs(peers),
        count_tried(peers, true) <= states[0].max_tried_peers,
        count_tried(peers, false) <= states[0].max_new_peers,
    ensures
        lists(peers, states.last().everyone()),
        states.last().tried.len() == count_tried(peers, true),
        states.last().new.len() == count_tried(peers, false),
{
    lemma_kept_so_far(states, peers, peers.len() as int);
    assert(peers.take(peers.len() as int) =~= peers);
}

proof fn lemma_kept_so_far(states: Seq<KnownPeers>, peers: Seq<PeerInfo>, n: int)
    requires
        history(states, peers),
        states[0].tried == Map::<SocketAddr, PeerInfo>::empty(),
        states[0].new == Map::<SocketAddr, PeerInfo>::empty(),
        distinct_addrs(peers),
        count_tried(peers, true) <= states[0].max_tried_peers,
        count_tried(peers, false) <= states[0].max_new_peers,
        0 <= n <= peers.len(),
    ensures
        states[n].valid(),
        states[n].max_tried_peers == states[0].max_tried_peers,
        states[n].max_new_peers == states[0].max_new_peers,
        lists(peers.take(n), states[n].everyone()),
        states[n].tried.len() == count_tried(peers.take(n), true),
        states[n].new.len() == count_tried(peers.take(n), false),
    decreases n,
{
    reveal_with_fuel(Seq::filter, 1);
    let now = peers.take(n);
    if n == 0 {
        assert(states[0].everyone() =~= Map::<SocketAddr, PeerInfo>::empty());
    } else {
        lemma_kept_so_far(states, peers, n - 1);
        let before = states[n - 1];
        let peer = peers[n - 1];
        let after = states[n];
        let past = peers.take(n - 1);
        assert(before.learns(peer, states[n - 1 + 1]));
        assert(now.drop_last() =~= past);
        assert(now.last() == peer);
        lemma_count_prefix(peers, n, true);
        lemma_count_prefix(peers, n, false);
        assert(!before.everyone().contains_key(peer.addr)) by {
            if before.everyone().contains_key(peer.addr) {
                assert(mentions(past, peer.addr));
                let i = index_of(past, peer.addr);
                assert(past[i] == peers[i]);
            }
        }
        law_learning_keeps_validity(before, peer, after);
        law_fresh_peer_is_added(before, peer, after);
        assert(after.everyone() =~= before.everyone().insert(peer.addr, peer));
        assert(before.tried.insert(peer.addr, peer).dom() =~= before.tried.dom().insert(peer.addr));
        assert(before.new.insert(peer.addr, peer).dom() =~= before.new.dom().insert(peer.addr));
        assert forall|i: int| 0 <= i < now.len() implies after.everyone().contains_key(
            (#[trigger] now[i]).addr,
        ) && after.everyone()[now[i].addr] == now[i] by {
            if i < n - 1 {
                assert(now[i] == past[i]);
                assert(before.everyone().contains_key(past[i].addr));
            }
        }
        assert forall|addr: SocketAddr| #[trigger]
            after.everyone().contains_key(addr) implies mentions(now, addr) by {
            if addr == peer.addr {
                assert(now[n - 1].addr == addr);
            } else {
                assert(mentions(past, addr));
                let i = index_of(past, addr);
                assert(now[i] == past[i]);
            }
        }
    }
}

/// Counting a prefix: no more than in the whole, and one more exactly for a last peer of
/// the kind counted.
proof fn lemma_count_prefix(peers: Seq<PeerInfo>, n: int, tried: bool)
    requires
        1 <= n <= peers.len(),
    ensures
        count_tried(peers.take(n), tried) <= count_tried(peers, tried),
        count_tried(peers.take(n), tried) == count_tried(peers.take(n - 1), tried) + (
        if peers[n - 1].is_tried == tried {
            1nat
        } else {
            0nat
        }),
    decreases peers.len() - n,
{
    reveal_with_fuel(Seq::filter, 1);
    let now = peers.take(n);
    assert(now.drop_last() =~= peers.take(n - 1));
    assert(now.last() == peers[n - 1]);
    if n == peers.len() {
        assert(now =~= peers);
    } else {
        lemma_count_prefix(peers, n + 1, tried);
    }
}

/// What has ever been in a set, if none of it had been dropped: what was in it at the start,
/// and those of the peers that belong in it.
pub open spec fn pool(
    start: Map<SocketAddr, PeerInfo>,
    peers: Seq<PeerInfo>,
    tried: bool,
) -> Map<SocketAddr, PeerInfo>
    decreases peers.len(),
{
    if peers.len() == 0 {
        start
    } else if peers.last().is_tried == tried {
        pool(start, peers.drop_last(), tried).insert(peers.last().addr, peers.last())
    } else {
        pool(start, peers.drop_last(), tried)
    }
}

/// `kept` are those of the pool that were seen last, as many as the limit allows.
pub open spec fn seen_last(
    pool: Map<SocketAddr, PeerInfo>,
    limit: nat,
    kept: Map<SocketAddr, PeerInfo>,
) -> bool {
    &&& kept.len() == (if pool.len() <= limit {
        pool.len()
    } else {
        limit
    })
    &&& forall|addr: SocketAddr| #[trigger]
        kept.contains_key(addr) ==> pool.contains_key(addr) && kept[addr] == pool[addr]
    &&& forall|lost: SocketAddr, addr: SocketAddr|
        pool.contains_key(lost) && !(#[trigger] kept.contains_key(lost))
            && #[trigger] kept.contains_key(addr) ==> pool[lost].last_seen <= kept[addr].last_seen
}

/// However many peers of different and so far unknown addresses are heard of, each set ends
/// up with those that were seen last, and is full before any is lost.
pub proof fn law_sets_keep_the_peers_seen_last(states: Seq<KnownPeers>, peers: Seq<PeerInfo>)
    requires
        history(states, peers),
        states[0].valid(),
        distinct_addrs(peers),
        forall|i: int|
            0 <= i < peers.len() ==> !states[0].everyone().contains_key(
                (#[trigger] peers[i]).addr,
            ),
    ensures
        seen_last(
            pool(states[0].tried, peers, true),
            states[0].max_tried_peers,
            states.last().tried,
        ),
        seen_last(
            pool(states[0].new, peers, false),
            states[0].max_new_peers,
            states.last().new,
        ),
{
    lemma_seen_last_so_far(states, peers, peers.len() as int);
    assert(peers.take(peers.len() as int) =~= peers);
}

proof fn lemma_seen_last_so_far(states: Seq<KnownPeers>, peers: Seq<PeerInfo>, n: int)
    requires
        history(states, peers),
        states[0].valid(),
        distinct_addrs(peers),
        forall|i: int|
            0 <= i < peers.len() ==> !states[0].everyone().contains_key(
                (#[trigger] peers[i]).addr,
            ),
        0 <= n <= peers.len(),
    ensures
        pool(states[0].tried, peers.take(n), true).dom().finite(),
        pool(states[0].new, peers.take(n), false).dom().finite(),
        seen_last(
            pool(states[0].tried, peers.take(n), true),
            states[0].max_tried_peers,
            states[n].tried,
        ),
        seen_last(
            pool(states[0].new, peers.take(n), false),
            states[0].max_new_peers,
            states[n].new,
        ),
    decreases n,
{
    let start = states[0];
    let now = peers.take(n);
    if n > 0 {
        lemma_seen_last_so_far(states, peers, n - 1);
        law_history_keeps_validity(states, peers, n - 1);
        let before = states[n - 1];
        let after = states[n];
        let peer = peers[n - 1];
        let past = peers.take(n - 1);
        assert(before.learns(peer, states[n - 1 + 1]));
        assert(now.drop_last() =~= past);
        assert(now.last() == peer);
        lemma_pool_addrs(start.tried, past, true);
        lemma_pool_addrs(start.new, past, false);
        let tried_pool = pool(start.tried, past, true);
        let new_pool = pool(start.new, past, false);
        assert(!mentions(past, peer.addr)) by {
            if mentions(past, peer.addr) {
                let i = index_of(past, peer.addr);
                assert(past[i] == peers[i]);
            }
        }
        assert(!start.everyone().contains_key(peers[n - 1].addr));
        assert(!tried_pool.contains_key(peer.addr) && !new_pool.contains_key(peer.addr));
        assert(!before.tried.contains_key(peer.addr) && !before.new.contains_key(peer.addr));
        assert(before.record_of(peer) == peer);
        if peer.is_tried {
            assert(before.new.remove(peer.addr) =~= before.new);
            lemma_seen_last_step(tried_pool, start.max_tried_peers, before.tried, peer, after.tried);
        } else {
            lemma_seen_last_step(new_pool, start.max_new_peers, before.new, peer, after.new);
        }
    }
}

/// Only the start and the peers are in a pool.
proof fn lemma_pool_addrs(start: Map<SocketAddr, PeerInfo>, peers: Seq<PeerInfo>, tried: bool)
    ensures
        forall|addr: SocketAddr| #[trigger]
            pool(start, peers, tried).contains_key(addr) ==> start.contains_key(addr)
                || mentions(peers, addr),
    decreases peers.len(),
{
    if peers.len() > 0 {
        let front = peers.drop_last();
        lemma_pool_addrs(start, front, tried);
        assert forall|addr: SocketAddr| #[trigger]
            pool(start, peers, tried).contains_key(addr) implies start.contains_key(addr)
            || mentions(peers, addr) by {
            if mentions(front, addr) {
                let i = index_of(front, addr);
                assert(peers[i] == front[i]);
            } else if addr == peers.last().addr {
                assert(peers[peers.len() - 1].addr == addr);
            } else {
                assert(pool(start, front, tried).contains_key(addr));
            }
        }
    }
}

/// One more peer for the pool, and the set held to its limit: still those seen last.
proof fn lemma_seen_last_step(
    all: Map<SocketAddr, PeerInfo>,
    limit: nat,
    kept: Map<SocketAddr, PeerInfo>,
    peer: PeerInfo,
    after: Map<SocketAddr, PeerInfo>,
)
    requires
        all.dom().finite(),
        kept.dom().finite(),
        kept.len() <= limit,
        seen_last(all, limit, kept),
        !all.contains_key(peer.addr),
        trimmed(kept.insert(peer.addr, peer), limit, after),
    ensures
        all.insert(peer.addr, peer).dom().finite(),
        seen_last(all.insert(peer.addr, peer), limit, after),
{
    let more = all.insert(peer.addr, peer);
    let full = kept.insert(peer.addr, peer);
    assert(more.dom() =~= all.dom().insert(peer.addr));
    assert(full.dom() =~= kept.dom().insert(peer.addr));
    assert(!kept.contains_key(peer.addr));
    assert(kept.dom().subset_of(all.dom())) by {
        assert forall|addr: SocketAddr| kept.dom().contains(addr) implies all.dom().contains(
            addr,
        ) by {
            assert(kept.contains_key(addr));
        }
    }
    if kept.len() < limit {
        vstd::set_lib::lemma_subset_equality(kept.dom(), all.dom());
        assert(kept =~= all);
    } else {
        let lost = choose|lost: SocketAddr| #[trigger]
            is_oldest(full, lost) && after == full.remove(lost);
        assert(after.dom() =~= full.dom().remove(lost));
        assert forall|gone: SocketAddr, addr: SocketAddr|
            more.contains_key(gone) && !(#[trigger] after.contains_key(gone))
                && #[trigger] after.contains_key(addr) implies more[gone].last_seen
            <= after[addr].last_seen by {
            assert(full.contains_key(addr));
            if gone != lost {
                assert(all.contains_key(gone) && !kept.contains_key(gone));
                if addr == peer.addr {
                    assert(kept.contains_key(lost));
                } else {
                    assert(kept.contains_key(addr));
                }
            }
        }
    }
}

/// A list of what is known shows each known peer once, with its services and all else that
/// is on record, and nobody else.
pub proof fn law_list_shows_each_peer_once(
    listed: Seq<PeerInfo>,
    known: Map<SocketAddr, PeerInfo>,
    addr: SocketAddr,
)
    requires
        lists(listed, known),
    ensures
        listed.len() == known.len(),
        known.contains_key(addr) ==> exists|i: int|
            0 <= i < listed.len() && #[trigger] listed[i] == known[addr] && listed[i].addr == addr,
        forall|i: int, j: int|
            0 <= i < listed.len() && 0 <= j < listed.len() && (#[trigger] listed[i]).addr == addr
                && (#[trigger] listed[j]).addr == addr ==> i == j,
        !known.contains_key(addr) ==> forall|i: int|
            0 <= i < listed.len() ==> (#[trigger] listed[i]).addr != addr,
{
    crate::buckets::lemma_lists_len(listed, known);
    if known.contains_key(addr) {
        assert(mentions(listed, addr));
        let i = index_of(listed, addr);
        assert(listed[i].addr == addr);
    }
}

/// A peer that may be selected is known, and is a new one only while no tried peer is
/// known.
pub proof fn law_tried_peers_are_preferred(known: KnownPeers, addr: SocketAddr)
    requires
        known.valid(),
        if known.tried == Map::<SocketAddr, PeerInfo>::empty() {
            is_least_recently_tried(known.new, addr)
        } else {
            is_least_recently_tried(known.tried, addr)
        },
    ensures
        known.everyone().contains_key(addr),
        known.everyone()[addr].is_tried <==> known.tried != Map::<SocketAddr, PeerInfo>::empty(),
{
}

/// What `add_peer` is told is kept as it was told: a peer that is known in the set it belongs
/// in, or for which that set has room, is on record there in every field as given; only of a
/// peer that we have tried ourselves does hearsay change no more than the services.
pub proof fn law_add_peer_keeps_what_it_is_told(manager: &mut AddrMan, peer: PeerInfo)
    requires
        old(manager).wf(),
        call_ensures(AddrMan::add_peer, (manager, peer), ()),
    ensures
        peer.is_tried && (old(manager)@.tried.contains_key(peer.addr) || old(manager)@.tried.len()
            < old(manager)@.max_tried_peers) ==> {
            &&& final(manager)@.tried.contains_key(peer.addr)
            &&& final(manager)@.tried[peer.addr] == peer
        },
        !peer.is_tried && !old(manager)@.tried.contains_key(peer.addr) && (
        old(manager)@.new.contains_key(peer.addr) || old(manager)@.new.len() < old(manager)@.max_new_peers) ==> {
            &&& final(manager)@.new.contains_key(peer.addr)
            &&& final(manager)@.new[peer.addr] == peer
        },
        !peer.is_tried && old(manager)@.tried.contains_key(peer.addr) ==> {
            &&& final(manager)@.tried.contains_key(peer.addr)
            &&& final(manager)@.tried[peer.addr] == (PeerInfo {
                services: peer.services,
                ..old(manager)@.tried[peer.addr]
            })
            &&& final(manager)@.new == old(manager)@.new
        },
        peer.is_tried && final(manager)@.tried.contains_key(peer.addr) ==> {
            &&& final(manager)@.tried[peer.addr] == peer
            &&& final(manager)@.new == old(manager)@.new.remove(peer.addr)
        },
        peer.is_tried && !final(manager)@.tried.contains_key(peer.addr) ==> final(manager)@.new
            == old(manager)@.new,
        !peer.is_tried && !old(manager)@.tried.contains_key(peer.addr) ==> {
            &&& final(manager)@.tried == old(manager)@.tried
            &&& final(manager)@.new.contains_key(peer.addr) ==> final(manager)@.new[peer.addr]
                == peer
        },
        final(manager)@.max_tried_peers == old(manager)@.max_tried_peers,
        final(manager)@.max_new_peers == old(manager)@.max_new_peers,
        final(manager).wf(),
{
    let before = old(manager)@;
    old(manager).law_wf_means_valid();
    if before.tried.contains_key(peer.addr) {
        let record = before.record_of(peer);
        assert(before.tried.insert(peer.addr, record).dom() =~= before.tried.dom());
        assert(before.new.remove(peer.addr) =~= before.new);
    } else if peer.is_tried {
        assert(before.tried.insert(peer.addr, peer).dom() =~= before.tried.dom().insert(peer.addr));
    } else if before.new.contains_key(peer.addr) {
        assert(before.new.insert(peer.addr, peer).dom() =~= before.new.dom());
    } else {
        assert(before.new.insert(peer.addr, peer).dom() =~= before.new.dom().insert(peer.addr));
    }
}

/// `add_peer` leaves the records of other peers alone, and drops one of them only from a set
/// that was full and takes in the peer: one that was seen no later than any in that set and
/// than the peer itself. A peer that does not find its way into a full set was seen no later
/// than any that is there, and nobody else leaves.
pub proof fn law_add_peer_drops_only_the_oldest(
    manager: &mut AddrMan,
    peer: PeerInfo,
    other: SocketAddr,
    third: SocketAddr,
)
    requires
        old(manager).wf(),
        call_ensures(AddrMan::add_peer, (manager, peer), ()),
        other != peer.addr,
    ensures
        final(manager)@.tried.contains_key(other) ==> old(manager)@.tried.contains_key(other)
            && final(manager)@.tried[other] == old(manager)@.tried[other],
        final(manager)@.new.contains_key(other) ==> old(manager)@.new.contains_key(other)
            && final(manager)@.new[other] == old(manager)@.new[other],
        old(manager)@.tried.contains_key(other) && !final(manager)@.tried.contains_key(other) ==> {
            &&& peer.is_tried
            &&& !old(manager)@.tried.contains_key(peer.addr)
            &&& old(manager)@.tried.len() == old(manager)@.max_tried_peers
            &&& final(manager)@.tried.contains_key(peer.addr)
            &&& old(manager)@.tried[other].last_seen <= peer.last_seen
            &&& old(manager)@.tried.contains_key(third) ==> old(manager)@.tried[other].last_seen
                <= old(manager)@.tried[third].last_seen
            &&& old(manager)@.tried.contains_key(third) && third != other ==> final(manager)@.tried.contains_key(third)
        },
        old(manager)@.new.contains_key(other) && !final(manager)@.new.contains_key(other) ==> {
            &&& !peer.is_tried
            &&& !old(manager)@.tried.contains_key(peer.addr)
            &&& !old(manager)@.new.contains_key(peer.addr)
            &&& old(manager)@.new.len() == old(manager)@.max_new_peers
            &&& final(manager)@.new.contains_key(peer.addr)
            &&& old(manager)@.new[other].last_seen <= peer.last_seen
            &&& old(manager)@.new.contains_key(third) ==> old(manager)@.new[other].last_seen
                <= old(manager)@.new[third].last_seen
            &&& old(manager)@.new.contains_key(third) && third != other ==> final(manager)@.new.contains_key(third)
        },
        peer.is_tried && !final(manager)@.tried.contains_key(peer.addr) ==> {
            &&& old(manager)@.tried.len() == old(manager)@.max_tried_peers
            &&& final(manager)@.tried == old(manager)@.tried
            &&& old(manager)@.tried.contains_key(other) ==> peer.last_seen <= old(manager)@.tried[other].last_seen
        },
        !peer.is_tried && !old(manager)@.tried.contains_key(peer.addr) && !final(manager)@.new.contains_key(peer.addr) ==> {
            &&& old(manager)@.new.len() == old(manager)@.max_new_peers
            &&& final(manager)@.new == old(manager)@.new
            &&& old(manager)@.new.contains_key(other) ==> peer.last_seen <= old(manager)@.new[other].last_seen
        },
{
    let before = old(manager)@;
    let after = final(manager)@;
    let record = before.record_of(peer);
    old(manager).law_wf_means_valid();
    if record.is_tried {
        let full = before.tried.insert(peer.addr, record);
        if before.tried.contains_key(peer.addr) {
            assert(full.dom() =~= before.tried.dom());
        } else {
            assert(full.dom() =~= before.tried.dom().insert(peer.addr));
        }
        if full.len() > before.max_tried_peers {
            let lost = choose|lost: SocketAddr| #[trigger]
                is_oldest(full, lost) && after.tried == full.remove(lost);
            assert(full.contains_key(peer.addr));
            assert(before.tried.contains_key(other) ==> full.contains_key(other));
            assert(before.tried.contains_key(third) ==> full.contains_key(third));
            if lost == peer.addr {
                assert(after.tried =~= before.tried);
            }
        }
    } else {
        let full = before.new.insert(peer.addr, record);
        if before.new.contains_key(peer.addr) {
            assert(full.dom() =~= before.new.dom());
        } else {
            assert(full.dom() =~= before.new.dom().insert(peer.addr));
        }
        if full.len() > before.max_new_peers {
            let lost = choose|lost: SocketAddr| #[trigger]
                is_oldest(full, lost) && after.new == full.remove(lost);
            assert(full.contains_key(peer.addr));
            assert(before.new.contains_key(other) ==> full.contains_key(other));
            assert(before.new.contains_key(third) ==> full.contains_key(third));
            if lost == peer.addr {
                assert(after.new =~= before.new);
            }
        }
    }
}

/// What `add_peer` does to the sizes of the sets: a peer of an address not in its set makes
/// the set one larger until that is full, a peer that moves to the tried set makes the new
/// set one smaller, and nothing else changes a size.
pub proof fn law_add_peer_counts(manager: &mut AddrMan, peer: PeerInfo)
    requires
        old(manager).wf(),
        call_ensures(AddrMan::add_peer, (manager, peer), ()),
    ensures
        final(manager)@.tried.len() <= final(manager)@.max_tried_peers,
        final(manager)@.new.len() <= final(manager)@.max_new_peers,
        final(manager)@.tried.len() == old(manager)@.tried.len() + (if peer.is_tried && !old(manager)@.tried.contains_key(peer.addr) && old(manager)@.tried.len() < old(manager)@.max_tried_peers {
            1int
        } else {
            0int
        }),
        final(manager)@.new.len() == old(manager)@.new.len() + (if peer.is_tried {
            if old(manager)@.new.contains_key(peer.addr) && final(manager)@.tried.contains_key(
                peer.addr,
            ) {
                -1int
            } else {
                0int
            }
        } else if !old(manager)@.tried.contains_key(peer.addr) && !old(manager)@.new.contains_key(
            peer.addr,
        ) && old(manager)@.new.len() < old(manager)@.max_new_peers {
            1int
        } else {
            0int
        }),
{
    let before = old(manager)@;
    let after = final(manager)@;
    let record = before.record_of(peer);
    old(manager).law_wf_means_valid();
    law_learning_keeps_validity(before, peer, after);
    if record.is_tried {
        let full = before.tried.insert(peer.addr, record);
        if before.tried.contains_key(peer.addr) {
            assert(full.dom() =~= before.tried.dom());
        } else {
            assert(full.dom() =~= before.tried.dom().insert(peer.addr));
        }
        if full.len() > before.max_tried_peers {
            let lost = choose|lost: SocketAddr| #[trigger]
                is_oldest(full, lost) && after.tried == full.remove(lost);
            assert(after.tried.dom() =~= full.dom().remove(lost));
        }
        assert(before.new.remove(peer.addr).dom() =~= before.new.dom().remove(peer.addr));
    } else {
        let full = before.new.insert(peer.addr, record);
        if before.new.contains_key(peer.addr) {
            assert(full.dom() =~= before.new.dom());
        } else {
            assert(full.dom() =~= before.new.dom().insert(peer.addr));
        }
        if full.len() > before.max_new_peers {
            let lost = choose|lost: SocketAddr| #[trigger]
                is_oldest(full, lost) && after.new == full.remove(lost);
            assert(after.new.dom() =~= full.dom().remove(lost));
        }
    }
}

/// `add_peer` notes that the peer's source told us of the peer, and nothing else about who
/// told us of whom.
pub proof fn law_add_peer_notes_the_source(
    manager: &mut AddrMan,
    peer: PeerInfo,
    source: SocketAddr,
    addr: SocketAddr,
)
    requires
        call_ensures(AddrMan::add_peer, (manager, peer), ()),
    ensures
        final(manager)@.source_peers.contains_key(source) <==> source == peer.source || old(manager)@.source_peers.contains_key(source),
        final(manager)@.source_peers.contains_key(source) ==> {
            final(manager)@.source_peers[source].contains(addr) <==> {
                ||| source == peer.source && addr == peer.addr
                ||| old(manager)@.source_peers.contains_key(source)
                    && old(manager)@.source_peers[source].contains(addr)
            }
        },
{
}

/// Telling `add_peer` once more of a peer that is on record as told changes nothing.
pub proof fn law_adding_again_changes_nothing(
    manager: &mut AddrMan,
    later: &mut AddrMan,
    peer: PeerInfo,
)
    requires
        old(manager).wf(),
        call_ensures(AddrMan::add_peer, (manager, peer), ()),
        *old(later) == *final(manager),
        call_ensures(AddrMan::add_peer, (later, peer), ()),
        if peer.is_tried {
            final(manager)@.tried.contains_key(peer.addr)
        } else {
            final(manager)@.tried.contains_key(peer.addr) || final(manager)@.new.contains_key(
                peer.addr,
            )
        },
    ensures
        final(later)@ == final(manager)@,
{
    law_add_peer_keeps_what_it_is_told(manager, peer);
    let between = final(manager)@;
    let after = final(later)@;
    final(manager).law_wf_means_valid();
    let record = between.record_of(peer);
    if between.tried.contains_key(peer.addr) {
        assert(between.tried.insert(peer.addr, record) =~= between.tried);
        assert(between.new.remove(peer.addr) =~= between.new);
    } else {
        assert(between.new.insert(peer.addr, record) =~= between.new);
    }
    let told = peers_from(between.source_peers, peer.source);
    assert(told.insert(peer.addr) =~= told);
    assert(after.source_peers =~= between.source_peers);
}

/// A manager that is just made knows of no peer and no source, and has the limits given.
pub proof fn law_new_manager_knows_nobody(
    max_tried_peers: usize,
    max_new_peers: usize,
    manager: AddrMan,
    addr: SocketAddr,
)
    requires
        call_ensures(AddrMan::new, (max_tried_peers, max_new_peers), manager),
    ensures
        manager.wf(),
        !manager@.tried.contains_key(addr),
        !manager@.new.contains_key(addr),
        !manager@.source_peers.contains_key(addr),
        manager@.max_tried_peers == max_tried_peers,
        manager@.max_new_peers == max_new_peers,
{
}

/// `select_peer` gives a tried peer where any is known, else a new one where any is known,
/// and of these one that no other was tried before; it gives nothing only where nobody is
/// known.
pub proof fn law_select_peer_takes_the_least_recently_tried(
    manager: AddrMan,
    selected: Option<SocketAddr>,
    other: SocketAddr,
)
    requires
        manager.wf(),
        call_ensures(AddrMan::select_peer, (&manager,), selected),
    ensures
        manager@.tried.contains_key(other) ==> {
            &&& selected is Some
            &&& manager@.tried.contains_key(selected->0)
            &&& manager@.tried[selected->0].last_try <= manager@.tried[other].last_try
        },
        manager@.new.contains_key(other) ==> {
            &&& selected is Some
            &&& manager@.new.contains_key(selected->0) ==> manager@.new[selected->0].last_try
                <= manager@.new[other].last_try
        },
        selected matches Some(addr) ==> manager@.tried.contains_key(addr)
            || manager@.new.contains_key(addr),
{
    manager.law_wf_means_valid();
}

/// `get_all_peers` lists every known peer once, as it is on record, and nobody else: as many
/// of the tried ones as there are, then the new ones.
pub proof fn law_all_peers_are_listed(
    manager: AddrMan,
    peers: Vec<&PeerInfo>,
    i: int,
    j: int,
)
    requires
        manager.wf(),
        call_ensures(AddrMan::get_all_peers, (&manager,), peers),
        0 <= i < j < peers@.len(),
    ensures
        peers@[i].addr != peers@[j].addr,
        peers@.len() == manager@.tried.len() + manager@.new.len(),
        i < manager@.tried.len() <==> manager@.tried.contains_key(peers@[i].addr)
            && manager@.tried[peers@[i].addr] == *peers@[i],
        i >= manager@.tried.len() <==> manager@.new.contains_key(peers@[i].addr)
            && manager@.new[peers@[i].addr] == *peers@[i],
        peers@[i].is_tried <==> i < manager@.tried.len(),
{
    let listed = peers@.unref();
    let tried = manager@.tried.len() as int;
    manager.law_wf_means_valid();
    assert(listed[i] == *peers@[i] && listed[j] == *peers@[j]);
    if i < tried {
        assert(listed.take(tried)[i] == listed[i]);
    } else {
        assert(listed.skip(tried)[i - tried] == listed[i]);
    }
}

/// Whoever is known is in the list that `get_all_peers` gives, as on record.
pub proof fn law_known_peers_are_listed(
    manager: AddrMan,
    peers: Vec<&PeerInfo>,
    addr: SocketAddr,
)
    requires
        manager.wf(),
        call_ensures(AddrMan::get_all_peers, (&manager,), peers),
    ensures
        peers@.len() == manager@.tried.len() + manager@.new.len(),
        manager@.tried.contains_key(addr) ==> exists|i: int|
            0 <= i < manager@.tried.len() && *(#[trigger] peers@[i]) == manager@.tried[addr],
        manager@.new.contains_key(addr) ==> exists|i: int|
            manager@.tried.len() <= i < peers@.len() && *(#[trigger] peers@[i])
                == manager@.new[addr],
        forall|i: int|
            0 <= i < peers@.len() ==> {
                let record = *(#[trigger] peers@[i]);
                ||| manager@.tried.contains_key(record.addr) && manager@.tried[record.addr]
                    == record
                ||| manager@.new.contains_key(record.addr) && manager@.new[record.addr] == record
            },
{
    let listed = peers@.unref();
    let tried = manager@.tried.len() as int;
    let first = listed.take(tried);
    let second = listed.skip(tried);
    if manager@.tried.contains_key(addr) {
        assert(mentions(first, addr));
        let i = index_of(first, addr);
        assert(*peers@[i] == first[i]);
    }
    if manager@.new.contains_key(addr) {
        assert(mentions(second, addr));
        let i = index_of(second, addr);
        assert(*peers@[i + tried] == second[i]);
    }
    assert forall|i: int| 0 <= i < peers@.len() implies {
        let record = *(#[trigger] peers@[i]);
        ||| manager@.tried.contains_key(record.addr) && manager@.tried[record.addr] == record
        ||| manager@.new.contains_key(record.addr) && manager@.new[record.addr] == record
    } by {
        if i < tried {
            assert(first[i] == *peers@[i]);
        } else {
            assert(second[i - tried] == *peers@[i]);
        }
    }
}

/// A peer that `add_peer` was just told of, and that is known in the set it belongs in or
/// finds room there, is in the list that `get_all_peers` then gives, in every field as told
/// unless it is hearsay about a tried peer.
pub proof fn law_added_peer_is_listed(
    manager: &mut AddrMan,
    peer: PeerInfo,
    peers: Vec<&PeerInfo>,
)
    requires
        old(manager).wf(),
        call_ensures(AddrMan::add_peer, (manager, peer), ()),
        call_ensures(AddrMan::get_all_peers, (&*final(manager),), peers),
        if peer.is_tried {
            old(manager)@.tried.contains_key(peer.addr) || old(manager)@.tried.len() < old(manager)@.max_tried_peers
        } else {
            !old(manager)@.tried.contains_key(peer.addr) && (old(manager)@.new.contains_key(
                peer.addr,
            ) || old(manager)@.new.len() < old(manager)@.max_new_peers)
        },
    ensures
        exists|i: int| 0 <= i < peers@.len() && *(#[trigger] peers@[i]) == peer,
        forall|i: int|
            0 <= i < peers@.len() && (#[trigger] peers@[i]).addr == peer.addr ==> *peers@[i]
                == peer,
{
    law_add_peer_keeps_what_it_is_told(manager, peer);
    final(manager).law_wf_means_valid();
    law_known_peers_are_listed(*final(manager), peers, peer.addr);
}

/// The counts are those of the peers that `get_all_peers` lists with and without the mark of
/// the tried, and never exceed the limits.
pub proof fn law_counts_fit_the_list(
    manager: AddrMan,
    tried: usize,
    new: usize,
    peers: Vec<&PeerInfo>,
    i: int,
)
    requires
        manager.wf(),
        call_ensures(AddrMan::tried_peer_count, (&manager,), tried),
        call_ensures(AddrMan::new_peer_count, (&manager,), new),
        call_ensures(AddrMan::get_all_peers, (&manager,), peers),
    ensures
        tried == manager@.tried.len(),
        new == manager@.new.len(),
        tried <= manager@.max_tried_peers,
        new <= manager@.max_new_peers,
        peers@.len() == tried + new,
        0 <= i < peers@.len() ==> (peers@[i].is_tried <==> i < tried),
{
    manager.law_wf_means_valid();
    let listed = peers@.unref();
    if 0 <= i < peers@.len() {
        assert(listed[i] == *peers@[i]);
        if i < tried {
            assert(listed.take(tried as int)[i] == listed[i]);
        } else {
            assert(listed.skip(tried as int)[i - tried] == listed[i]);
        }
    }
}

/// A manager in order can be told of any peer, and asked for whatever it can be asked for.
pub proof fn law_manager_in_order_can_be_used(manager: &mut AddrMan, peer: PeerInfo)
    requires
        old(manager).wf(),
    ensures
        call_requires(AddrMan::add_peer, (manager, peer)),
        call_requires(AddrMan::select_peer, (&*old(manager),)),
        call_requires(AddrMan::get_all_peers, (&*old(manager),)),
        call_requires(AddrMan::tried_peer_count, (&*old(manager),)),
        call_requires(AddrMan::new_peer_count, (&*old(manager),)),
{
}

} // verus!
