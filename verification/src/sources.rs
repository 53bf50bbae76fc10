//! Who told us about whom.

use crate::addr::{contains_addr, SocketAddr};
use vstd::prelude::*;

verus! {

/// A source peer and the peers that it told us about.
struct SourceEntry {
    source: SocketAddr,
    peers: Vec<SocketAddr>,
}

/// The place of a source among the entries.
spec fn is_at(entries: Seq<SourceEntry>, source: SocketAddr, i: int) -> bool {
    0 <= i < entries.len() && entries[i].source == source
}

spec fn knows(entries: Seq<SourceEntry>, source: SocketAddr) -> bool {
    exists|i: int| is_at(entries, source, i)
}

spec fn told(entries: Seq<SourceEntry>) -> Map<SocketAddr, Set<SocketAddr>> {
    Map::new(
        |source: SocketAddr| knows(entries, source),
        |source: SocketAddr| entries[choose|i: int| is_at(entries, source, i)].peers@.to_set(),
    )
}

/// Each source has one entry, and each entry names a peer once.
spec fn in_order(entries: Seq<SourceEntry>) -> bool {
    &&& forall|i: int, j: int|
        0 <= i < j < entries.len() ==> (#[trigger] entries[i]).source != (
        #[trigger] entries[j]).source
    &&& forall|i: int| 0 <= i < entries.len() ==> (#[trigger] entries[i]).peers@.no_duplicates()
}

/// Which peers each source told us about.
pub struct SourceIndex {
    entries: Vec<SourceEntry>,
}

impl View for SourceIndex {
    type V = Map<SocketAddr, Set<SocketAddr>>;

    closed spec fn view(&self) -> Map<SocketAddr, Set<SocketAddr>> {
        told(self.entries@)
    }
}

/// The peers that a source told us about: none where it told us of none.
pub open spec fn peers_from(
    sources: Map<SocketAddr, Set<SocketAddr>>,
    source: SocketAddr,
) -> Set<SocketAddr> {
    if sources.contains_key(source) {
        sources[source]
    } else {
        Set::empty()
    }
}

/// The entry of a source is the one that counts.
proof fn lemma_told(entries: Seq<SourceEntry>, i: int)
    requires
        in_order(entries),
        0 <= i < entries.len(),
    ensures
        told(entries).contains_key(entries[i].source),
        told(entries)[entries[i].source] == entries[i].peers@.to_set(),
{
    let source = entries[i].source;
    assert(is_at(entries, source, i));
    let j = choose|j: int| is_at(entries, source, j);
    assert(is_at(entries, source, j));
    assert(i == j);
}

/// Changing one entry's peers changes what its source told us, and nothing else.
proof fn lemma_retold(before: Seq<SourceEntry>, after: Seq<SourceEntry>, place: int)
    requires
        in_order(before),
        in_order(after),
        0 <= place < after.len(),
        after.len() >= before.len(),
        after.len() <= before.len() + 1,
        after.len() > before.len() ==> place == before.len(),
        forall|i: int|
            0 <= i < after.len() && i != place ==> #[trigger] after[i] == before[i],
        place < before.len() ==> after[place].source == before[place].source,
    ensures
        told(after) == told(before).insert(after[place].source, after[place].peers@.to_set()),
{
    let expected = told(before).insert(after[place].source, after[place].peers@.to_set());
    lemma_told(after, place);
    assert forall|source: SocketAddr| #[trigger]
        told(after).contains_key(source) == expected.contains_key(source) && (told(
            after,
        ).contains_key(source) ==> told(after)[source] == expected[source]) by {
        if source != after[place].source {
            if told(after).contains_key(source) {
                let i = choose|i: int| is_at(after, source, i);
                assert(is_at(after, source, i));
                assert(after[i] == before[i]);
                lemma_told(after, i);
                lemma_told(before, i);
            }
            if told(before).contains_key(source) {
                let i = choose|i: int| is_at(before, source, i);
                assert(is_at(before, source, i));
                assert(after[i] == before[i]);
                lemma_told(after, i);
            }
        }
    }
    assert(told(after) =~= expected);
}

impl SourceIndex {
    /// Each source has one entry, and each entry names a peer once.
    pub closed spec fn wf(&self) -> bool {
        in_order(self.entries@)
    }

    /// An index without sources.
    pub fn new() -> (index: Self)
        ensures
            index.wf(),
            index@ == Map::<SocketAddr, Set<SocketAddr>>::empty(),
    {
        let index = SourceIndex { entries: Vec::new() };
        assert(index@ =~= Map::<SocketAddr, Set<SocketAddr>>::empty());
        index
    }

    /// Notes that `source` told us about `addr`.
    pub fn record(&mut self, source: SocketAddr, addr: SocketAddr)
        requires
            old(self).wf(),
        ensures
            final(self).wf(),
            final(self)@ == old(self)@.insert(
                source,
                peers_from(old(self)@, source).insert(addr),
            ),
    {
        let ghost before = self.entries@;
        let mut i: usize = 0;
        while i < self.entries.len() && self.entries[i].source != source
            invariant
                self.entries@ == before,
                i <= before.len(),
                forall|j: int| 0 <= j < i ==> (#[trigger] before[j]).source != source,
            decreases self.entries.len() - i,
        {
            i = i + 1;
        }
        if i < self.entries.len() {
            proof {
                lemma_told(before, i as int);
            }
            let known = contains_addr(&self.entries[i].peers, addr);
            if !known {
                let ghost peers = before[i as int].peers@;
                self.entries[i].peers.push(addr);
                proof {
                    assert(self.entries@[i as int].peers@ == peers.push(addr));
                    peers.lemma_push_to_set_commute(addr);
                    lemma_retold(before, self.entries@, i as int);
                }
            } else {
                assert(before[i as int].peers@.to_set().insert(addr)
                    =~= before[i as int].peers@.to_set());
                assert(self@ =~= told(before).insert(source, told(before)[source].insert(addr)));
            }
        } else {
            let mut peers: Vec<SocketAddr> = Vec::new();
            peers.push(addr);
            self.entries.push(SourceEntry { source, peers });
            proof {
                assert(!told(before).contains_key(source)) by {
                    if knows(before, source) {
                        let j = choose|j: int| is_at(before, source, j);
                        assert(before[j].source == source);
                    }
                }
                assert(peers@ =~= Seq::<SocketAddr>::empty().push(addr));
                Seq::<SocketAddr>::empty().lemma_push_to_set_commute(addr);
                assert(Seq::<SocketAddr>::empty().to_set() =~= Set::<SocketAddr>::empty());
                lemma_retold(before, self.entries@, i as int);
            }
        }
    }
}

/// What an index notes is that this source told us of this address, and nothing else.
pub proof fn law_record_notes_one_address(
    index: &mut SourceIndex,
    source: SocketAddr,
    addr: SocketAddr,
    other: SocketAddr,
    known: SocketAddr,
)
    requires
        old(index).wf(),
        call_ensures(SourceIndex::record, (index, source, addr), ()),
    ensures
        final(index).wf(),
        final(index)@.contains_key(other) <==> other == source || old(index)@.contains_key(other),
        final(index)@.contains_key(other) ==> (final(index)@[other].contains(known) <==> (other
            == source && known == addr) || (old(index)@.contains_key(other) && old(index)@[other].contains(known))),
{
}

/// A new index knows of no source.
pub proof fn law_new_index_is_empty(index: SourceIndex, source: SocketAddr)
    requires
        call_ensures(SourceIndex::new, (), index),
    ensures
        index.wf(),
        !index@.contains_key(source),
{
}

} // verus!
