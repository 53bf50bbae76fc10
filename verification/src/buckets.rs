//! Records of peers, filed by the hash of their address.

use crate::addr::{get_bucket, SocketAddr};
use crate::peer_info::PeerInfo;
use std::collections::HashMap;
use vstd::prelude::*;
use vstd::std_specs::iter::IteratorSpec;

verus! {

broadcast use vstd::std_specs::hash::group_hash_axioms;

/// No two records are about one address.
pub open spec fn distinct_addrs(records: Seq<PeerInfo>) -> bool {
    forall|i: int, j: int|
        0 <= i < j < records.len() ==> (#[trigger] records[i]).addr != (#[trigger] records[j]).addr
}

/// Some record is about the address.
pub open spec fn mentions(records: Seq<PeerInfo>, addr: SocketAddr) -> bool {
    exists|i: int| 0 <= i < records.len() && (#[trigger] records[i]).addr == addr
}

/// Where a record about the address stands.
pub open spec fn index_of(records: Seq<PeerInfo>, addr: SocketAddr) -> int {
    choose|i: int| 0 <= i < records.len() && (#[trigger] records[i]).addr == addr
}

/// The records list exactly what the map holds, each address once.
pub open spec fn lists(records: Seq<PeerInfo>, held: Map<SocketAddr, PeerInfo>) -> bool {
    &&& distinct_addrs(records)
    &&& forall|i: int|
        0 <= i < records.len() ==> held.contains_key((#[trigger] records[i]).addr)
            && held[records[i].addr] == records[i]
    &&& forall|addr: SocketAddr| #[trigger] held.contains_key(addr) ==> mentions(records, addr)
}

/// No record in the map is older than the one at the address.
pub open spec fn is_oldest(held: Map<SocketAddr, PeerInfo>, addr: SocketAddr) -> bool {
    &&& held.contains_key(addr)
    &&& forall|other: SocketAddr| #[trigger]
        held.contains_key(other) ==> held[addr].last_seen <= held[other].last_seen
}

/// No record in the map was tried longer ago than the one at the address.
pub open spec fn is_least_recently_tried(held: Map<SocketAddr, PeerInfo>, addr: SocketAddr) -> bool {
    &&& held.contains_key(addr)
    &&& forall|other: SocketAddr| #[trigger]
        held.contains_key(other) ==> held[addr].last_try <= held[other].last_try
}

/// A bucket is in order: not empty, its records all belong in it, and no two of them are
/// about one address.
pub open spec fn bucket_in_order(bucket: u64, records: Seq<PeerInfo>) -> bool {
    &&& records.len() > 0
    &&& distinct_addrs(records)
    &&& forall|i: int| 0 <= i < records.len() ==> (#[trigger] records[i]).addr.bucket() == bucket
}

spec fn holds(buckets: Map<u64, Vec<PeerInfo>>, addr: SocketAddr) -> bool {
    buckets.contains_key(addr.bucket()) && mentions(buckets[addr.bucket()]@, addr)
}

spec fn held_by(buckets: Map<u64, Vec<PeerInfo>>) -> Map<SocketAddr, PeerInfo> {
    Map::new(
        |addr: SocketAddr| holds(buckets, addr),
        |addr: SocketAddr|
            {
                let records = buckets[addr.bucket()]@;
                records[index_of(records, addr)]
            },
    )
}

spec fn in_order(buckets: Map<u64, Vec<PeerInfo>>) -> bool {
    forall|bucket: u64| #[trigger]
        buckets.contains_key(bucket) ==> bucket_in_order(bucket, buckets[bucket]@)
}

/// The records filed in a bucket, none where there is no such bucket.
spec fn filed_in(buckets: Map<u64, Vec<PeerInfo>>, bucket: u64) -> Seq<PeerInfo> {
    if buckets.contains_key(bucket) {
        buckets[bucket]@
    } else {
        Seq::empty()
    }
}

/// Records of peers, filed in buckets by the hash of their address.
pub struct BucketTable {
    buckets: HashMap<u64, Vec<PeerInfo>>,
}

impl View for BucketTable {
    type V = Map<SocketAddr, PeerInfo>;

    closed spec fn view(&self) -> Map<SocketAddr, PeerInfo> {
        held_by(self.buckets@)
    }
}

impl BucketTable {
    /// Every bucket is in order, so each address has at most one record, and the records
    /// can be counted.
    pub closed spec fn wf(&self) -> bool {
        in_order(self.buckets@) && self@.dom().finite()
    }

    /// A table without records.
    pub fn new() -> (table: Self)
        ensures
            table.wf(),
            table@ == Map::<SocketAddr, PeerInfo>::empty(),
    {
        let table = BucketTable { buckets: HashMap::new() };
        assert(table@ =~= Map::<SocketAddr, PeerInfo>::empty());
        table
    }
}

/// In a bucket in order, the record at a place is the one held for its address.
proof fn lemma_place(buckets: Map<u64, Vec<PeerInfo>>, bucket: u64, i: int)
    requires
        in_order(buckets),
        buckets.contains_key(bucket),
        0 <= i < buckets[bucket]@.len(),
    ensures
        held_by(buckets).contains_key(buckets[bucket]@[i].addr),
        held_by(buckets)[buckets[bucket]@[i].addr] == buckets[bucket]@[i],
        buckets[bucket]@[i].addr.bucket() == bucket,
{
    let records = buckets[bucket]@;
    let addr = records[i].addr;
    assert(bucket_in_order(bucket, records));
    assert(mentions(records, addr));
    let j = index_of(records, addr);
    assert(0 <= j < records.len() && records[j].addr == addr);
    assert(i == j);
}

/// The records of the buckets named, one bucket after the other.
spec fn flat(buckets: Map<u64, Vec<PeerInfo>>, order: Seq<u64>) -> Seq<PeerInfo>
    decreases order.len(),
{
    if order.len() == 0 {
        Seq::empty()
    } else {
        flat(buckets, order.drop_last()) + buckets[order.last()]@
    }
}

/// Walking some of the buckets, each once, meets the records of exactly these buckets.
proof fn lemma_flat(buckets: Map<u64, Vec<PeerInfo>>, order: Seq<u64>)
    requires
        in_order(buckets),
        order.no_duplicates(),
        forall|i: int| 0 <= i < order.len() ==> buckets.contains_key(#[trigger] order[i]),
    ensures
        distinct_addrs(flat(buckets, order)),
        forall|i: int|
            0 <= i < flat(buckets, order).len() ==> {
                let record = #[trigger] flat(buckets, order)[i];
                &&& held_by(buckets).contains_key(record.addr)
                &&& held_by(buckets)[record.addr] == record
                &&& order.contains(record.addr.bucket())
            },
        forall|addr: SocketAddr| #[trigger]
            held_by(buckets).contains_key(addr) && order.contains(addr.bucket()) ==> mentions(
                flat(buckets, order),
                addr,
            ),
    decreases order.len(),
{
    let all = flat(buckets, order);
    if order.len() > 0 {
        let front = order.drop_last();
        let last = order.last();
        assert forall|i: int| 0 <= i < front.len() implies buckets.contains_key(
            #[trigger] front[i],
        ) by {
            assert(front[i] == order[i]);
        }
        lemma_flat(buckets, front);
        let before = flat(buckets, front);
        let added = buckets[last]@;
        assert(order[order.len() - 1] == last);
        assert(bucket_in_order(last, added));
        assert(!front.contains(last)) by {
            if front.contains(last) {
                let k = choose|k: int| 0 <= k < front.len() && front[k] == last;
                assert(order[k] == last);
            }
        }
        assert forall|i: int| 0 <= i < all.len() implies {
            let record = #[trigger] all[i];
            &&& held_by(buckets).contains_key(record.addr)
            &&& held_by(buckets)[record.addr] == record
            &&& order.contains(record.addr.bucket())
        } by {
            if i < before.len() {
                assert(all[i] == before[i]);
                let b = before[i].addr.bucket();
                let k = choose|k: int| 0 <= k < front.len() && front[k] == b;
                assert(order[k] == b);
            } else {
                assert(all[i] == added[i - before.len()]);
                lemma_place(buckets, last, i - before.len());
            }
        }
        assert forall|i: int, j: int| 0 <= i < j < all.len() implies (#[trigger] all[i]).addr != (
        #[trigger] all[j]).addr by {
            if j < before.len() {
                assert(all[i] == before[i] && all[j] == before[j]);
            } else if i < before.len() {
                assert(all[i] == before[i]);
                assert(all[j] == added[j - before.len()]);
                assert(front.contains(before[i].addr.bucket()));
            } else {
                assert(all[i] == added[i - before.len()] && all[j] == added[j - before.len()]);
            }
        }
        assert forall|addr: SocketAddr| #[trigger]
            held_by(buckets).contains_key(addr) && order.contains(addr.bucket()) implies mentions(
            all,
            addr,
        ) by {
            if addr.bucket() == last {
                assert(holds(buckets, addr));
                let k = index_of(added, addr);
                assert(all[before.len() + k] == added[k]);
            } else {
                let k = choose|k: int| 0 <= k < order.len() && order[k] == addr.bucket();
                assert(front[k] == addr.bucket());
                assert(mentions(before, addr));
                let i = index_of(before, addr);
                assert(all[i] == before[i]);
            }
        }
    }
}

/// A list of all that a map holds is as long as the map is large.
pub proof fn lemma_lists_len(records: Seq<PeerInfo>, held: Map<SocketAddr, PeerInfo>)
    requires
        lists(records, held),
    ensures
        held.dom().finite(),
        held.len() == records.len(),
{
    let addrs = records.map_values(|record: PeerInfo| record.addr);
    assert(addrs.no_duplicates());
    addrs.unique_seq_to_set();
    assert(addrs.to_set() =~= held.dom()) by {
        assert forall|addr: SocketAddr| held.dom().contains(addr) implies addrs.to_set().contains(
            addr,
        ) by {
            assert(held.contains_key(addr));
            let i = index_of(records, addr);
            assert(addrs[i] == addr);
        }
        assert forall|addr: SocketAddr| addrs.to_set().contains(addr) implies held.dom().contains(
            addr,
        ) by {
            let i = choose|i: int| 0 <= i < addrs.len() && addrs[i] == addr;
            assert(records[i].addr == addr);
        }
    }
    vstd::seq_lib::seq_to_set_is_finite(addrs);
}

/// The keys of the entries that a walk over the buckets yields, in the order of the walk.
spec fn walk_order(entries: Seq<(&u64, &Vec<PeerInfo>)>) -> Seq<u64> {
    entries.map_values(|entry: (&u64, &Vec<PeerInfo>)| *entry.0)
}

/// The entries are those of the buckets, each once.
spec fn walks(entries: Seq<(&u64, &Vec<PeerInfo>)>, buckets: Map<u64, Vec<PeerInfo>>) -> bool {
    &&& walk_order(entries).no_duplicates()
    &&& forall|i: int|
        0 <= i < entries.len() ==> buckets.contains_key(*(#[trigger] entries[i]).0)
            && buckets[*entries[i].0] == *entries[i].1
    &&& forall|bucket: u64| #[trigger]
        buckets.contains_key(bucket) ==> walk_order(entries).contains(bucket)
}

/// The records met in the first `n` buckets of a walk.
spec fn met(
    entries: Seq<(&u64, &Vec<PeerInfo>)>,
    buckets: Map<u64, Vec<PeerInfo>>,
    n: int,
) -> Seq<PeerInfo> {
    flat(buckets, walk_order(entries).take(n))
}

/// What a hash map's iterator yields is a walk over its buckets.
proof fn lemma_iter_walks(
    entries: Seq<(&u64, &Vec<PeerInfo>)>,
    buckets: Map<u64, Vec<PeerInfo>>,
)
    requires
        entries.no_duplicates(),
        forall|i: int|
            0 <= i < entries.len() ==> buckets.contains_key(*(#[trigger] entries[i]).0)
                && buckets[*entries[i].0] == *entries[i].1,
        forall|bucket: u64| #[trigger]
            buckets.contains_key(bucket) ==> entries.contains((&bucket, &buckets[bucket])),
    ensures
        walks(entries, buckets),
{
    let order = walk_order(entries);
    assert forall|i: int, j: int| 0 <= i < order.len() && 0 <= j < order.len() && i != j implies order[i]
        != order[j] by {
        assert(*entries[i].0 == order[i] && *entries[j].0 == order[j]);
        assert(entries[i] != entries[j]);
    }
    assert forall|bucket: u64| #[trigger] buckets.contains_key(bucket) implies order.contains(
        bucket,
    ) by {
        let i = choose|i: int|
            0 <= i < entries.len() && entries[i] == (&bucket, &buckets[bucket]);
        assert(order[i] == bucket);
    }
}

/// No more records are met on a part of a walk than the buckets hold, and a walk that has
/// gone one bucket further has met the records of that bucket too.
proof fn lemma_walk_step(
    entries: Seq<(&u64, &Vec<PeerInfo>)>,
    buckets: Map<u64, Vec<PeerInfo>>,
    n: int,
)
    requires
        in_order(buckets),
        held_by(buckets).dom().finite(),
        walks(entries, buckets),
        0 <= n <= entries.len(),
    ensures
        met(entries, buckets, n).len() <= held_by(buckets).len(),
        n < entries.len() ==> met(entries, buckets, n + 1) == met(entries, buckets, n)
            + entries[n].1@,
{
    let order = walk_order(entries).take(n);
    assert forall|i: int| 0 <= i < order.len() implies buckets.contains_key(#[trigger] order[i]) by {
        assert(order[i] == *entries[i].0);
    }
    lemma_flat(buckets, order);
    let records = flat(buckets, order);
    let addrs = records.map_values(|record: PeerInfo| record.addr);
    assert(addrs.no_duplicates());
    addrs.unique_seq_to_set();
    assert(addrs.to_set().subset_of(held_by(buckets).dom())) by {
        assert forall|addr: SocketAddr| addrs.to_set().contains(addr) implies held_by(
            buckets,
        ).dom().contains(addr) by {
            let i = choose|i: int| 0 <= i < addrs.len() && addrs[i] == addr;
            assert(records[i].addr == addr);
        }
    }
    vstd::set_lib::lemma_len_subset(addrs.to_set(), held_by(buckets).dom());
    if n < entries.len() {
        let next = walk_order(entries).take(n + 1);
        assert(next.drop_last() =~= order);
        assert(next.last() == *entries[n].0);
    }
}

/// A walk over all buckets meets exactly what they hold.
proof fn lemma_walk_end(entries: Seq<(&u64, &Vec<PeerInfo>)>, buckets: Map<u64, Vec<PeerInfo>>)
    requires
        in_order(buckets),
        walks(entries, buckets),
    ensures
        lists(met(entries, buckets, entries.len() as int), held_by(buckets)),
{
    let order = walk_order(entries);
    assert(order.take(entries.len() as int) =~= order);
    assert forall|i: int| 0 <= i < order.len() implies buckets.contains_key(#[trigger] order[i]) by {
        assert(order[i] == *entries[i].0);
    }
    lemma_flat(buckets, order);
    assert forall|addr: SocketAddr| #[trigger]
        held_by(buckets).contains_key(addr) implies mentions(flat(buckets, order), addr) by {
        assert(holds(buckets, addr));
    }
}

impl BucketTable {
    /// The number of records.
    pub fn count(&self) -> (n: usize)
        requires
            self.wf(),
            self@.len() <= usize::MAX,
        ensures
            n == self@.len(),
    {
        let mut n: usize = 0;
        let iter = self.buckets.iter();
        let ghost entries = iter.remaining();
        proof {
            lemma_iter_walks(entries, self.buckets@);
        }
        for entry in it: iter
            invariant
                self.wf(),
                self@.len() <= usize::MAX,
                it.seq() == entries,
                walks(entries, self.buckets@),
                n == met(entries, self.buckets@, it.index() as int).len(),
        {
            proof {
                lemma_walk_step(entries, self.buckets@, it.index() as int);
                lemma_walk_step(entries, self.buckets@, it.index() + 1);
            }
            n = n + entry.1.len();
        }
        proof {
            lemma_walk_end(entries, self.buckets@);
            lemma_lists_len(met(entries, self.buckets@, entries.len() as int), self@);
        }
        n
    }

    /// All records, in the order of a walk over the buckets.
    pub fn records(&self) -> (found: Vec<&PeerInfo>)
        requires
            self.wf(),
        ensures
            lists(found@.unref(), self@),
    {
        let mut found: Vec<&PeerInfo> = Vec::new();
        let iter = self.buckets.iter();
        let ghost entries = iter.remaining();
        proof {
            lemma_iter_walks(entries, self.buckets@);
            assert(met(entries, self.buckets@, 0) =~= found@.unref());
        }
        for entry in it: iter
            invariant
                self.wf(),
                it.seq() == entries,
                walks(entries, self.buckets@),
                found@.unref() == met(entries, self.buckets@, it.index() as int),
        {
            proof {
                lemma_walk_step(entries, self.buckets@, it.index() as int);
            }
            let bucket = entry.1;
            let ghost before = found@.unref();
            let mut i: usize = 0;
            while i < bucket.len()
                invariant
                    i <= bucket@.len(),
                    found@.unref() == before + bucket@.take(i as int),
                decreases bucket.len() - i,
            {
                let ghost so_far = found@;
                found.push(&bucket[i]);
                proof {
                    assert(found@.unref() =~= so_far.unref().push(bucket@[i as int]));
                    assert(bucket@.take(i + 1) =~= bucket@.take(i as int).push(bucket@[i as int]));
                    assert(found@.unref() =~= before + bucket@.take(i + 1));
                }
                i = i + 1;
            }
            assert(bucket@.take(i as int) =~= bucket@);
        }
        proof {
            lemma_walk_end(entries, self.buckets@);
        }
        found
    }

    /// The address of a record that was tried longest ago.
    pub fn least_recently_tried(&self) -> (found: Option<SocketAddr>)
        requires
            self.wf(),
        ensures
            found is None <==> self@ == Map::<SocketAddr, PeerInfo>::empty(),
            found matches Some(addr) ==> is_least_recently_tried(self@, addr),
    {
        let records = self.records();
        let ghost listed = records@.unref();
        if records.len() == 0 {
            assert(self@ =~= Map::<SocketAddr, PeerInfo>::empty()) by {
                assert forall|addr: SocketAddr| !self@.contains_key(addr) by {
                    if self@.contains_key(addr) {
                        assert(mentions(listed, addr));
                    }
                }
            }
            return None;
        }
        let mut best: usize = 0;
        let mut i: usize = 1;
        while i < records.len()
            invariant
                0 <= best < i <= records.len(),
                listed == records@.unref(),
                forall|j: int| 0 <= j < i ==> listed[best as int].last_try <= (#[trigger] listed[j]).last_try,
            decreases records.len() - i,
        {
            if records[i].last_try < records[best].last_try {
                best = i;
            }
            i = i + 1;
        }
        let addr = records[best].addr;
        proof {
            assert(listed[best as int].addr == addr);
            assert(self@.contains_key(addr));
            assert forall|other: SocketAddr| #[trigger] self@.contains_key(other) implies self@[addr].last_try
                <= self@[other].last_try by {
                assert(mentions(listed, other));
                let j = index_of(listed, other);
                assert(listed[j].addr == other);
            }
        }
        Some(addr)
    }

    /// The record of an address, if there is one.
    pub fn get(&self, addr: &SocketAddr) -> (found: Option<PeerInfo>)
        requires
            self.wf(),
        ensures
            found == (if self@.contains_key(*addr) {
                Some(self@[*addr])
            } else {
                None
            }),
    {
        match self.buckets.get(&get_bucket(addr)) {
            Some(records) => {
                let mut i: usize = 0;
                while i < records.len()
                    invariant
                        self.wf(),
                        i <= records.len(),
                        forall|j: int| 0 <= j < i ==> (#[trigger] records@[j]).addr != *addr,
                        self.buckets@.contains_key(addr.bucket()),
                        self.buckets@[addr.bucket()] == *records,
                    decreases records.len() - i,
                {
                    if records[i].addr == *addr {
                        proof {
                            lemma_place(self.buckets@, addr.bucket(), i as int);
                        }
                        return Some(records[i]);
                    }
                    i = i + 1;
                }
                assert(!holds(self.buckets@, *addr));
                None
            },
            None => {
                assert(!holds(self.buckets@, *addr));
                None
            },
        }
    }

    /// Files a record, in place of any earlier record of its address.
    pub fn insert(&mut self, record: PeerInfo)
        requires
            old(self).wf(),
        ensures
            final(self).wf(),
            final(self)@ == old(self)@.insert(record.addr, record),
    {
        let bucket = get_bucket(&record.addr);
        let ghost before = self.buckets@;
        let mut records = match self.buckets.remove(&bucket) {
            Some(records) => records,
            None => Vec::new(),
        };
        let ghost filed = records@;
        assert(filed =~= filed_in(before, bucket));
        let mut i: usize = 0;
        while i < records.len() && records[i].addr != record.addr
            invariant
                i <= records.len(),
                records@ == filed,
                forall|j: int| 0 <= j < i ==> (#[trigger] records@[j]).addr != record.addr,
            decreases records.len() - i,
        {
            i = i + 1;
        }
        if i < records.len() {
            records.set(i, record);
        } else {
            records.push(record);
        }
        self.buckets.insert(bucket, records);
        proof {
            assert(self.buckets@.dom() =~= before.dom().insert(bucket));
            lemma_refiled(before, self.buckets@, record, i as int);
        }
    }
}

/// Filing a record in its bucket, over the one of the same address if there is one and at
/// the end otherwise, keeps all buckets in order and changes what is held at its address.
proof fn lemma_refiled(
    before: Map<u64, Vec<PeerInfo>>,
    after: Map<u64, Vec<PeerInfo>>,
    record: PeerInfo,
    place: int,
)
    requires
        in_order(before),
        held_by(before).dom().finite(),
        ({
            let bucket = record.addr.bucket();
            let filed = filed_in(before, bucket);
            &&& after.dom() == before.dom().insert(bucket)
            &&& forall|other: u64| #[trigger]
                before.contains_key(other) && other != bucket ==> after[other] == before[other]
            &&& 0 <= place <= filed.len()
            &&& forall|j: int| 0 <= j < place ==> (#[trigger] filed[j]).addr != record.addr
            &&& if place < filed.len() {
                filed[place].addr == record.addr && after[bucket]@ == filed.update(place, record)
            } else {
                after[bucket]@ == filed.push(record)
            }
        }),
    ensures
        in_order(after),
        held_by(after) == held_by(before).insert(record.addr, record),
        held_by(after).dom().finite(),
{
    let bucket = record.addr.bucket();
    let filed = filed_in(before, bucket);
    let refiled = after[bucket]@;
    if before.contains_key(bucket) {
        assert(bucket_in_order(bucket, filed));
    }
    assert(bucket_in_order(bucket, refiled)) by {
        assert forall|i: int| 0 <= i < refiled.len() implies (#[trigger] refiled[i]).addr.bucket()
            == bucket by {
            if i != place {
                assert(refiled[i] == filed[i]);
            }
        }
        assert forall|i: int, j: int| 0 <= i < j < refiled.len() implies (
        #[trigger] refiled[i]).addr != (#[trigger] refiled[j]).addr by {
            if i != place {
                assert(refiled[i] == filed[i]);
            }
            if j != place {
                assert(refiled[j] == filed[j]);
            }
        }
    }
    assert forall|other: u64| #[trigger] after.contains_key(other) implies bucket_in_order(
        other,
        after[other]@,
    ) by {
        if other != bucket {
            assert(before.contains_key(other));
        }
    }
    let expected = held_by(before).insert(record.addr, record);
    assert forall|addr: SocketAddr| #[trigger]
        held_by(after).contains_key(addr) == expected.contains_key(addr) && (held_by(
            after,
        ).contains_key(addr) ==> held_by(after)[addr] == expected[addr]) by {
        if addr == record.addr {
            assert(refiled[place].addr == addr);
            lemma_place(after, bucket, place);
        } else if addr.bucket() == bucket {
            if held_by(before).contains_key(addr) {
                assert(holds(before, addr));
                let j = index_of(filed, addr);
                assert(filed[j].addr == addr);
                assert(refiled[j] == filed[j]);
                lemma_place(before, bucket, j);
                lemma_place(after, bucket, j);
            }
            if held_by(after).contains_key(addr) {
                assert(holds(after, addr));
                let j = index_of(refiled, addr);
                assert(refiled[j].addr == addr);
                assert(refiled[j] == filed[j]);
                lemma_place(before, bucket, j);
            }
        } else {
            assert(before.contains_key(addr.bucket()) == after.contains_key(addr.bucket()));
        }
    }
    assert(held_by(after) =~= expected);
}

/// `kept` are the records of `filed` that are not about the address.
spec fn keeps_others(filed: Seq<PeerInfo>, addr: SocketAddr, kept: Seq<PeerInfo>) -> bool {
    &&& distinct_addrs(kept)
    &&& forall|j: int|
        0 <= j < kept.len() ==> (#[trigger] kept[j]).addr != addr && filed.contains(kept[j])
    &&& forall|k: int|
        0 <= k < filed.len() && (#[trigger] filed[k]).addr != addr ==> kept.contains(filed[k])
}

/// Leaving the records of an address out of its bucket, and the bucket itself out where it
/// has no others, keeps all buckets in order and forgets what was held at the address.
proof fn lemma_dropped(
    before: Map<u64, Vec<PeerInfo>>,
    after: Map<u64, Vec<PeerInfo>>,
    addr: SocketAddr,
    kept: Seq<PeerInfo>,
)
    requires
        in_order(before),
        held_by(before).dom().finite(),
        keeps_others(filed_in(before, addr.bucket()), addr, kept),
        after.dom() == (if kept.len() == 0 {
            before.dom().remove(addr.bucket())
        } else {
            before.dom().insert(addr.bucket())
        }),
        kept.len() > 0 ==> after[addr.bucket()]@ == kept,
        forall|other: u64| #[trigger]
            before.contains_key(other) && other != addr.bucket() ==> after[other] == before[other],
    ensures
        in_order(after),
        held_by(after) == held_by(before).remove(addr),
        held_by(after).dom().finite(),
{
    let bucket = addr.bucket();
    let filed = filed_in(before, bucket);
    if before.contains_key(bucket) {
        assert(bucket_in_order(bucket, filed));
    }
    assert forall|other: u64| #[trigger] after.contains_key(other) implies bucket_in_order(
        other,
        after[other]@,
    ) by {
        if other != bucket {
            assert(before.contains_key(other));
        } else {
            assert forall|j: int| 0 <= j < kept.len() implies (#[trigger] kept[j]).addr.bucket()
                == bucket by {
                let k = choose|k: int| 0 <= k < filed.len() && filed[k] == kept[j];
                assert(filed[k].addr.bucket() == bucket);
            }
        }
    }
    let expected = held_by(before).remove(addr);
    assert forall|a: SocketAddr| #[trigger]
        held_by(after).contains_key(a) == expected.contains_key(a) && (held_by(after).contains_key(
            a,
        ) ==> held_by(after)[a] == expected[a]) by {
        if a.bucket() == bucket {
            if held_by(after).contains_key(a) {
                assert(holds(after, a));
                let j = index_of(kept, a);
                assert(kept[j].addr == a);
                let k = choose|k: int| 0 <= k < filed.len() && filed[k] == kept[j];
                lemma_place(after, bucket, j);
                lemma_place(before, bucket, k);
            }
            if expected.contains_key(a) {
                assert(holds(before, a));
                let k = index_of(filed, a);
                assert(filed[k].addr == a);
                let j = choose|j: int| 0 <= j < kept.len() && kept[j] == filed[k];
                lemma_place(after, bucket, j);
                lemma_place(before, bucket, k);
            }
        } else {
            assert(before.contains_key(a.bucket()) == after.contains_key(a.bucket()));
        }
    }
    assert(held_by(after) =~= expected);
}

/// The place of an oldest record.
fn oldest_place(records: &Vec<PeerInfo>) -> (place: usize)
    requires
        records.len() > 0,
    ensures
        place < records.len(),
        forall|j: int|
            0 <= j < records.len() ==> records@[place as int].last_seen <= (
            #[trigger] records@[j]).last_seen,
{
    let mut place: usize = 0;
    let mut i: usize = 1;
    while i < records.len()
        invariant
            0 <= place < i <= records.len(),
            forall|j: int|
                0 <= j < i ==> records@[place as int].last_seen <= (
                #[trigger] records@[j]).last_seen,
        decreases records.len() - i,
    {
        if records[i].last_seen < records[place].last_seen {
            place = i;
        }
        i = i + 1;
    }
    place
}

impl BucketTable {
    /// Drops the records of an address from its bucket, and the bucket once it is empty.
    fn drop_from(&mut self, bucket: u64, addr: SocketAddr)
        requires
            old(self).wf(),
            bucket == addr.bucket(),
        ensures
            final(self).wf(),
            final(self)@ == old(self)@.remove(addr),
    {
        let ghost before = self.buckets@;
        let records = match self.buckets.remove(&bucket) {
            Some(records) => records,
            None => Vec::new(),
        };
        let ghost filed = records@;
        assert(filed =~= filed_in(before, bucket));
        assert(distinct_addrs(filed)) by {
            if before.contains_key(bucket) {
                assert(bucket_in_order(bucket, filed));
            }
        }
        let mut kept: Vec<PeerInfo> = Vec::new();
        let mut i: usize = 0;
        while i < records.len()
            invariant
                i <= records.len(),
                records@ == filed,
                distinct_addrs(filed),
                keeps_others(filed.take(i as int), addr, kept@),
            decreases records.len() - i,
        {
            let ghost so_far = kept@;
            let record = records[i];
            if record.addr != addr {
                kept.push(record);
            }
            proof {
                lemma_kept_further(filed, i as int, addr, so_far, kept@);
            }
            i = i + 1;
        }
        assert(filed.take(i as int) =~= filed);
        let ghost all_kept = kept@;
        if kept.len() > 0 {
            self.buckets.insert(bucket, kept);
            assert(self.buckets@.dom() =~= before.dom().insert(bucket));
        } else {
            assert(self.buckets@.dom() =~= before.dom().remove(bucket));
        }
        proof {
            lemma_dropped(before, self.buckets@, addr, all_kept);
        }
    }

    /// Forgets the record of an address, if there is one.
    pub fn remove(&mut self, addr: SocketAddr)
        requires
            old(self).wf(),
        ensures
            final(self).wf(),
            final(self)@ == old(self)@.remove(addr),
    {
        let bucket = get_bucket(&addr);
        self.drop_from(bucket, addr);
    }
}

/// Looking at one more record, and keeping it unless it is about the address.
proof fn lemma_kept_further(
    filed: Seq<PeerInfo>,
    n: int,
    addr: SocketAddr,
    kept: Seq<PeerInfo>,
    further: Seq<PeerInfo>,
)
    requires
        distinct_addrs(filed),
        0 <= n < filed.len(),
        keeps_others(filed.take(n), addr, kept),
        further == (if filed[n].addr != addr {
            kept.push(filed[n])
        } else {
            kept
        }),
    ensures
        keeps_others(filed.take(n + 1), addr, further),
{
    let seen = filed.take(n);
    let now = filed.take(n + 1);
    assert(now =~= seen.push(filed[n]));
    assert forall|j: int| 0 <= j < further.len() implies (#[trigger] further[j]).addr != addr
        && now.contains(further[j]) by {
        if j < kept.len() {
            assert(further[j] == kept[j]);
            let k = choose|k: int| 0 <= k < seen.len() && seen[k] == kept[j];
            assert(now[k] == kept[j]);
        } else {
            assert(now[n] == further[j]);
        }
    }
    assert forall|k: int| 0 <= k < now.len() && (#[trigger] now[k]).addr != addr implies further.contains(
        now[k],
    ) by {
        if k < n {
            assert(seen[k] == now[k]);
            let j = choose|j: int| 0 <= j < kept.len() && kept[j] == seen[k];
            assert(further[j] == now[k]);
        } else {
            assert(further[kept.len() as int] == now[k]);
        }
    }
    assert forall|i: int, j: int| 0 <= i < j < further.len() implies (#[trigger] further[i]).addr != (
    #[trigger] further[j]).addr by {
        assert(further[i] == kept[i]);
        if j < kept.len() {
            assert(further[j] == kept[j]);
        } else {
            let k = choose|k: int| 0 <= k < seen.len() && seen[k] == kept[i];
            assert(filed[k] == kept[i]);
            assert(filed[n] == further[j]);
        }
    }
}

/// Nothing in the records was seen before `seen`.
spec fn none_older(records: Seq<PeerInfo>, seen: u64) -> bool {
    forall|k: int| 0 <= k < records.len() ==> seen <= (#[trigger] records[k]).last_seen
}

impl BucketTable {
    /// The bucket of an oldest record.
    fn oldest_bucket(&self) -> (found: Option<u64>)
        requires
            self.wf(),
        ensures
            found is None ==> self@ == Map::<SocketAddr, PeerInfo>::empty(),
            found matches Some(bucket) ==> {
                &&& self.buckets@.contains_key(bucket)
                &&& exists|k: int|
                    0 <= k < self.buckets@[bucket]@.len() && is_oldest(
                        self@,
                        (#[trigger] self.buckets@[bucket]@[k]).addr,
                    )
            },
    {
        let iter = self.buckets.iter();
        let ghost entries = iter.remaining();
        proof {
            lemma_iter_walks(entries, self.buckets@);
        }
        let mut found: Option<(u64, u64)> = None;
        for entry in it: iter
            invariant
                self.wf(),
                it.seq() == entries,
                walks(entries, self.buckets@),
                found is None ==> it.index() == 0,
                found matches Some((bucket, seen)) ==> {
                    &&& self.buckets@.contains_key(bucket)
                    &&& exists|k: int|
                        0 <= k < self.buckets@[bucket]@.len() && (
                        #[trigger] self.buckets@[bucket]@[k]).last_seen == seen
                    &&& forall|i: int|
                        0 <= i < it.index() ==> none_older((#[trigger] entries[i]).1@, seen)
                },
        {
            let records = entry.1;
            assert(*entries[it.index() as int].1 == *records);
            assert(bucket_in_order(*entry.0, records@));
            let place = oldest_place(records);
            let oldest = records[place].last_seen;
            assert(none_older(records@, oldest));
            assert(self.buckets@[*entry.0]@[place as int].last_seen == oldest);
            let older = match found {
                None => true,
                Some((_, seen)) => oldest < seen,
            };
            if older {
                found = Some((*entry.0, oldest));
            }
            proof {
                let (_, seen) = found.unwrap();
                assert forall|i: int| 0 <= i < it.index() + 1 implies none_older(
                    (#[trigger] entries[i]).1@,
                    seen,
                ) by {
                    if i < it.index() {
                        assert(none_older(entries[i].1@, seen));
                    }
                }
            }
        }
        match found {
            None => {
                assert(self@ =~= Map::<SocketAddr, PeerInfo>::empty()) by {
                    assert forall|addr: SocketAddr| !self@.contains_key(addr) by {
                        if self@.contains_key(addr) {
                            assert(holds(self.buckets@, addr));
                            assert(walk_order(entries).contains(addr.bucket()));
                        }
                    }
                }
                None
            },
            Some((bucket, seen)) => {
                proof {
                    let k = choose|k: int|
                        0 <= k < self.buckets@[bucket]@.len() && (
                        #[trigger] self.buckets@[bucket]@[k]).last_seen == seen;
                    lemma_place(self.buckets@, bucket, k);
                    let addr = self.buckets@[bucket]@[k].addr;
                    assert forall|other: SocketAddr| #[trigger]
                        self@.contains_key(other) implies self@[addr].last_seen
                        <= self@[other].last_seen by {
                        assert(holds(self.buckets@, other));
                        let b = other.bucket();
                        let i = choose|i: int| 0 <= i < entries.len() && walk_order(entries)[i] == b;
                        assert(*entries[i].0 == b);
                        assert(none_older(entries[i].1@, seen));
                        let j = index_of(self.buckets@[b]@, other);
                        assert(self.buckets@[b]@[j].addr == other);
                        lemma_place(self.buckets@, b, j);
                    }
                    assert(is_oldest(self@, addr));
                }
                Some(bucket)
            },
        }
    }

    /// Forgets an oldest record; where several are equally old, one of them.
    pub fn remove_oldest(&mut self)
        requires
            old(self).wf(),
        ensures
            final(self).wf(),
            old(self)@ == Map::<SocketAddr, PeerInfo>::empty() ==> final(self)@ == old(self)@,
            old(self)@ != Map::<SocketAddr, PeerInfo>::empty() ==> exists|addr: SocketAddr|
                #[trigger] is_oldest(old(self)@, addr) && final(self)@ == old(self)@.remove(addr),
    {
        if let Some(bucket) = self.oldest_bucket() {
            let mut addr: Option<SocketAddr> = None;
            if let Some(records) = self.buckets.get(&bucket) {
                assert(bucket_in_order(bucket, records@));
                let place = oldest_place(records);
                proof {
                    let k = choose|k: int|
                        0 <= k < self.buckets@[bucket]@.len() && is_oldest(
                            self@,
                            (#[trigger] self.buckets@[bucket]@[k]).addr,
                        );
                    lemma_place(self.buckets@, bucket, k);
                    lemma_place(self.buckets@, bucket, place as int);
                    assert(is_oldest(self@, records@[place as int].addr));
                }
                addr = Some(records[place].addr);
            }
            if let Some(addr) = addr {
                self.drop_from(bucket, addr);
            }
        }
    }
}

/// A table that a record was put into gives that record for its address, and for any other
/// address what it gave before; one that a record was removed from gives none for its
/// address, and otherwise the same.
pub proof fn law_table_gives_what_was_put_in(
    table: &mut BucketTable,
    record: PeerInfo,
    lesser: &mut BucketTable,
    removed: SocketAddr,
    addr: SocketAddr,
    before: Option<PeerInfo>,
    after: Option<PeerInfo>,
    without: Option<PeerInfo>,
)
    requires
        old(table).wf(),
        *old(lesser) == *old(table),
        call_ensures(BucketTable::insert, (table, record), ()),
        call_ensures(BucketTable::remove, (lesser, removed), ()),
        call_ensures(BucketTable::get, (&*old(table), &addr), before),
        call_ensures(BucketTable::get, (&*final(table), &addr), after),
        call_ensures(BucketTable::get, (&*final(lesser), &addr), without),
    ensures
        addr == record.addr ==> after == Some(record),
        addr != record.addr ==> after == before,
        addr == removed ==> without is None,
        addr != removed ==> without == before,
        before matches Some(found) ==> found.addr == addr,
{
}

/// A table from which the oldest is removed loses one record, and none that it keeps was seen
/// before that one; an empty table stays empty.
pub proof fn law_oldest_record_leaves(table: &mut BucketTable, addr: SocketAddr, lost: SocketAddr)
    requires
        old(table).wf(),
        call_ensures(BucketTable::remove_oldest, (table,), ()),
    ensures
        final(table)@.contains_key(addr) ==> old(table)@.contains_key(addr) && final(table)@[addr]
            == old(table)@[addr],
        old(table)@.contains_key(lost) && !final(table)@.contains_key(lost) ==> {
            &&& old(table)@.contains_key(addr) ==> old(table)@[lost].last_seen
                <= old(table)@[addr].last_seen
            &&& old(table)@.contains_key(addr) && addr != lost ==> final(table)@.contains_key(addr)
        },
        old(table)@.contains_key(addr) ==> final(table)@.len() == old(table)@.len() - 1,
{
    if old(table)@.contains_key(addr) {
        let gone = choose|gone: SocketAddr|
            #[trigger] is_oldest(old(table)@, gone) && final(table)@ == old(table)@.remove(gone);
        assert(final(table)@.dom() =~= old(table)@.dom().remove(gone));
    }
}

/// What a table counts, lists and selects is what it holds: the list has each record once and
/// is as long as the count, and the address selected, which only an empty table lacks, is one
/// that no record was tried before.
pub proof fn law_table_shows_what_it_holds(
    table: BucketTable,
    count: usize,
    records: Vec<&PeerInfo>,
    selected: Option<SocketAddr>,
    addr: SocketAddr,
    i: int,
    j: int,
)
    requires
        table.wf(),
        call_ensures(BucketTable::count, (&table,), count),
        call_ensures(BucketTable::records, (&table,), records),
        call_ensures(BucketTable::least_recently_tried, (&table,), selected),
    ensures
        count == table@.len(),
        records@.len() == count,
        0 <= i < records@.len() ==> table@.contains_key(records@[i].addr)
            && table@[records@[i].addr] == *records@[i],
        0 <= i < j < records@.len() ==> records@[i].addr != records@[j].addr,
        table@.contains_key(addr) ==> {
            &&& selected is Some
            &&& table@[selected->0].last_try <= table@[addr].last_try
            &&& exists|k: int| 0 <= k < records@.len() && *(#[trigger] records@[k]) == table@[addr]
        },
        selected matches Some(found) ==> table@.contains_key(found),
{
    let listed = records@.unref();
    lemma_lists_len(listed, table@);
    if 0 <= i < records@.len() {
        assert(listed[i] == *records@[i]);
    }
    if 0 <= j < records@.len() {
        assert(listed[j] == *records@[j]);
    }
    if table@.contains_key(addr) {
        assert(mentions(listed, addr));
        let k = index_of(listed, addr);
        assert(*records@[k] == listed[k]);
    }
}

/// A new table holds nothing.
pub proof fn law_new_table_is_empty(table: BucketTable, addr: SocketAddr)
    requires
        call_ensures(BucketTable::new, (), table),
    ensures
        table.wf(),
        !table@.contains_key(addr),
{
}

} // verus!
