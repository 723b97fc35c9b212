//! The checkpoint store: for each tracked (stream, partition), the next offset
//! to read.

use crate::catalog::{
    catalog_resolves, has_partition, has_topic, selects, ConfiguredCatalog, ConfiguredStream,
    Metadata, TopicMetadata,
};
use vstd::prelude::*;

verus! {

/// A tracked partition is named by its stream and its partition index.
pub type PartitionKey = (Seq<char>, u32);

/// Next-offset-to-read of one partition of one stream: one past the offset of
/// the last message emitted for it.
#[derive(Clone, Debug)]
pub struct Checkpoint {
    pub stream: String,
    pub partition: u32,
    pub offset: u64,
}

impl Checkpoint {
    pub open spec fn key(&self) -> PartitionKey {
        (self.stream@, self.partition)
    }
}

/// The map from (stream, partition) to next-offset-to-read; each key is held
/// once.
#[derive(Debug)]
pub struct CheckpointSet {
    entries: Vec<Checkpoint>,
}

/// What the offsets map to after one `add` of `offset` at `key`: the stored
/// offset never goes down.
pub open spec fn advanced(m: Map<PartitionKey, u64>, key: PartitionKey, offset: u64) -> Map<
    PartitionKey,
    u64,
> {
    if m.contains_key(key) && m[key] >= offset {
        m
    } else {
        m.insert(key, offset)
    }
}

/// The offsets after a sequence of `add` calls, in order.
pub open spec fn advanced_by_all(m: Map<PartitionKey, u64>, deltas: Seq<(PartitionKey, u64)>) -> Map<
    PartitionKey,
    u64,
>
    decreases deltas.len(),
{
    if deltas.len() == 0 {
        m
    } else {
        let last = deltas.last();
        advanced(advanced_by_all(m, deltas.drop_last()), last.0, last.1)
    }
}

/// The offset a partition resumes from: the persisted one if it was tracked,
/// else the start of the partition.
pub open spec fn resume_offset(persisted: Map<PartitionKey, u64>, key: PartitionKey) -> u64 {
    if persisted.contains_key(key) {
        persisted[key]
    } else {
        0
    }
}

/// The checkpoints of a run: every live partition of every selected stream,
/// at its resume offset. Persisted partitions of streams no longer selected,
/// or no longer live, are dropped.
pub open spec fn reconciled(
    metadata: Seq<TopicMetadata>,
    catalog: Seq<ConfiguredStream>,
    persisted: Map<PartitionKey, u64>,
) -> Map<PartitionKey, u64> {
    Map::new(
        |k: PartitionKey| selects(catalog, k.0) && has_partition(metadata, k.0, k.1),
        |k: PartitionKey| resume_offset(persisted, k),
    )
}

/// Why a catalog cannot be reconciled against the live metadata.
#[derive(Clone, Debug, PartialEq, Eq)]
pub enum CatalogError {
    /// The catalog selects a stream for which the broker reports no topic.
    MissingStream(String),
}

spec fn unique_keys(entries: Seq<Checkpoint>) -> bool {
    forall|i: int, j: int|
        0 <= i < j < entries.len() ==> (#[trigger] entries[i]).key() != (#[trigger] entries[j]).key()
}

spec fn holds_key(entries: Seq<Checkpoint>, k: PartitionKey) -> bool {
    exists|i: int| 0 <= i < entries.len() && (#[trigger] entries[i]).key() == k
}

spec fn entries_map(entries: Seq<Checkpoint>) -> Map<PartitionKey, u64> {
    Map::new(
        |k: PartitionKey| holds_key(entries, k),
        |k: PartitionKey|
            entries[choose|i: int| 0 <= i < entries.len() && (#[trigger] entries[i]).key() == k].offset,
    )
}

proof fn lemma_entry(entries: Seq<Checkpoint>, i: int)
    requires
        unique_keys(entries),
        0 <= i < entries.len(),
    ensures
        entries_map(entries).contains_key(entries[i].key()),
        entries_map(entries)[entries[i].key()] == entries[i].offset,
{
    let k = entries[i].key();
    assert(holds_key(entries, k));
    let j = choose|j: int| 0 <= j < entries.len() && (#[trigger] entries[j]).key() == k;
    assert(j == i);
}

impl CheckpointSet {
    #[verifier::type_invariant]
    spec fn keys_unique(&self) -> bool {
        unique_keys(self.entries@)
    }

    /// The tracked partitions and their next offsets.
    pub closed spec fn view(&self) -> Map<PartitionKey, u64> {
        entries_map(self.entries@)
    }

    /// An empty set: no partition is tracked.
    pub fn new() -> (r: CheckpointSet)
        ensures
            r@ == Map::<PartitionKey, u64>::empty(),
    {
        let r = CheckpointSet { entries: Vec::new() };
        assert(r@ =~= Map::<PartitionKey, u64>::empty());
        r
    }

    fn find(&self, stream: &String, partition: u32) -> (r: Option<usize>)
        ensures
            match r {
                Some(i) => i < self.entries@.len() && self.entries@[i as int].key() == (
                stream@,
                partition,
                ),
                None => !self@.contains_key((stream@, partition)),
            },
    {
        let mut i: usize = 0;
        while i < self.entries.len()
            invariant
                0 <= i <= self.entries@.len(),
                forall|j: int| 0 <= j < i ==> (#[trigger] self.entries@[j]).key() != (stream@, partition),
            decreases self.entries@.len() - i,
        {
            if self.entries[i].partition == partition && self.entries[i].stream == *stream {
                return Some(i);
            }
            i = i + 1;
        }
        None
    }

    /// The next offset to read of a partition, if it is tracked.
    pub fn offset(&self, stream: &String, partition: u32) -> (r: Option<u64>)
        ensures
            r == (if self@.contains_key((stream@, partition)) {
                Some(self@[(stream@, partition)])
            } else {
                None
            }),
    {
        match self.find(stream, partition) {
            Some(i) => {
                proof {
                    use_type_invariant(self);
                    lemma_entry(self.entries@, i as int);
                }
                Some(self.entries[i].offset)
            },
            None => None,
        }
    }

    /// Records that `checkpoint.offset` is the next offset to read of its
    /// partition. A stored offset is never lowered: an equal or lower one is
    /// ignored.
    pub fn add(&mut self, checkpoint: Checkpoint)
        ensures
            final(self)@ == advanced(old(self)@, checkpoint.key(), checkpoint.offset),
            forall|k: PartitionKey| #[trigger]
                old(self)@.contains_key(k) ==> final(self)@.contains_key(k) && final(self)@[k]
                    >= old(self)@[k],
    {
        let found = self.find(&checkpoint.stream, checkpoint.partition);
        let mut taken = CheckpointSet::new();
        std::mem::swap(self, &mut taken);
        proof {
            use_type_invariant(&taken);
        }
        let ghost before = taken.entries@;
        let mut entries = taken.entries;
        match found {
            Some(i) => {
                proof {
                    lemma_entry(before, i as int);
                }
                if entries[i].offset < checkpoint.offset {
                    entries.set(i, checkpoint);
                    proof {
                        lemma_set(before, i as int, entries@[i as int]);
                    }
                }
            },
            None => {
                entries.push(checkpoint);
                proof {
                    lemma_push(before, entries@.last());
                }
            },
        }
        *self = CheckpointSet { entries };
    }
}

proof fn lemma_set(entries: Seq<Checkpoint>, i: int, c: Checkpoint)
    requires
        unique_keys(entries),
        0 <= i < entries.len(),
        entries[i].key() == c.key(),
    ensures
        unique_keys(entries.update(i, c)),
        entries_map(entries.update(i, c)) == entries_map(entries).insert(c.key(), c.offset),
{
    let after = entries.update(i, c);
    assert forall|a: int, b: int| 0 <= a < b < after.len() implies (#[trigger] after[a]).key()
        != (#[trigger] after[b]).key() by {
        assert(entries[a].key() != entries[b].key());
    }
    assert(after[i].key() == c.key());
    map_agrees(entries, after, c);
}

proof fn lemma_push(entries: Seq<Checkpoint>, c: Checkpoint)
    requires
        unique_keys(entries),
        !entries_map(entries).contains_key(c.key()),
    ensures
        unique_keys(entries.push(c)),
        entries_map(entries.push(c)) == entries_map(entries).insert(c.key(), c.offset),
{
    let after = entries.push(c);
    assert forall|a: int, b: int| 0 <= a < b < after.len() implies (#[trigger] after[a]).key()
        != (#[trigger] after[b]).key() by {
        if b == entries.len() {
            assert(after[a] == entries[a]);
            assert(!holds_key(entries, c.key()));
        } else {
            assert(entries[a].key() != entries[b].key());
        }
    }
    assert(after[after.len() - 1].key() == c.key());
    map_agrees(entries, after, c);
}

/// `after` holds the entries of `entries` with the one for `c`'s key set to `c`.
proof fn map_agrees(entries: Seq<Checkpoint>, after: Seq<Checkpoint>, c: Checkpoint)
    requires
        unique_keys(entries),
        unique_keys(after),
        holds_key(after, c.key()),
        after.len() >= entries.len(),
        forall|i: int| 0 <= i < entries.len() && entries[i].key() != c.key() ==> after[i] == entries[i],
        forall|i: int| entries.len() <= i < after.len() ==> after[i] == c,
        forall|i: int| 0 <= i < entries.len() && entries[i].key() == c.key() ==> after[i] == c,
    ensures
        entries_map(after) == entries_map(entries).insert(c.key(), c.offset),
{
    let m = entries_map(entries).insert(c.key(), c.offset);
    let n = entries_map(after);
    assert forall|k: PartitionKey| #[trigger] n.contains_key(k) <==> m.contains_key(k) by {
        if k != c.key() {
            if n.contains_key(k) {
                let j = choose|j: int| 0 <= j < after.len() && (#[trigger] after[j]).key() == k;
                assert(entries[j].key() == k);
            }
            if m.contains_key(k) {
                let j = choose|j: int| 0 <= j < entries.len() && (#[trigger] entries[j]).key() == k;
                assert(after[j].key() == k);
            }
        }
    }
    assert forall|k: PartitionKey| #[trigger] n.contains_key(k) implies n[k] == m[k] by {
        let j = choose|j: int| 0 <= j < after.len() && (#[trigger] after[j]).key() == k;
        lemma_entry(after, j);
        if k != c.key() {
            lemma_entry(entries, j);
        }
    }
    assert(n =~= m);
}

/// The number of partitions the broker reports for `stream`, if it reports
/// the topic at all.
fn partition_count(metadata: &Metadata, stream: &String) -> (r: Option<u32>)
    ensures
        r is None <==> !has_topic(metadata.topics@, stream@),
        r matches Some(n) ==> forall|p: u32|
            has_partition(metadata.topics@, stream@, p) <==> p < n,
{
    let topics = &metadata.topics;
    let mut count: Option<u32> = None;
    let mut i: usize = 0;
    while i < topics.len()
        invariant
            0 <= i <= topics@.len(),
            count is None <==> !has_topic(topics@.subrange(0, i as int), stream@),
            count matches Some(n) ==> forall|p: u32|
                has_partition(topics@.subrange(0, i as int), stream@, p) <==> p < n,
        decreases topics@.len() - i,
    {
        let ghost before = topics@.subrange(0, i as int);
        let ghost upto = topics@.subrange(0, i + 1);
        assert(upto =~= before.push(topics@[i as int]));
        if topics[i].name == *stream {
            let n = topics[i].partitions;
            let next = match count {
                Some(m) if m >= n => m,
                _ => n,
            };
            proof {
                assert(upto[i as int].name@ == stream@);
                assert forall|p: u32| has_partition(upto, stream@, p) <==> p < next by {
                    if has_partition(upto, stream@, p) {
                        let j = choose|j: int|
                            0 <= j < upto.len() && (#[trigger] upto[j]).name@ == stream@ && p
                                < upto[j].partitions;
                        if j < i {
                            assert(before[j] == upto[j]);
                            assert(has_partition(before, stream@, p));
                        }
                    }
                    if p < next {
                        if p < n {
                            assert(has_partition(upto, stream@, p));
                        } else {
                            assert(has_partition(before, stream@, p));
                            let j = choose|j: int|
                                0 <= j < before.len() && (#[trigger] before[j]).name@ == stream@
                                    && p < before[j].partitions;
                            assert(upto[j] == before[j]);
                        }
                    }
                }
            }
            count = Some(next);
        } else {
            proof {
                assert forall|p: u32| has_partition(upto, stream@, p) <==> has_partition(before, stream@, p) by {
                    if has_partition(upto, stream@, p) {
                        let j = choose|j: int|
                            0 <= j < upto.len() && (#[trigger] upto[j]).name@ == stream@ && p
                                < upto[j].partitions;
                        assert(before[j] == upto[j]);
                    }
                    if has_partition(before, stream@, p) {
                        let j = choose|j: int|
                            0 <= j < before.len() && (#[trigger] before[j]).name@ == stream@ && p
                                < before[j].partitions;
                        assert(upto[j] == before[j]);
                    }
                }
                if has_topic(upto, stream@) {
                    let j = choose|j: int| 0 <= j < upto.len() && (#[trigger] upto[j]).name@ == stream@;
                    assert(before[j] == upto[j]);
                }
                if has_topic(before, stream@) {
                    let j = choose|j: int| 0 <= j < before.len() && (#[trigger] before[j]).name@ == stream@;
                    assert(upto[j] == before[j]);
                }
            }
        }
        i = i + 1;
    }
    assert(topics@.subrange(0, topics@.len() as int) =~= topics@);
    count
}

/// Whether a catalog entry before position `end` selects `stream`.
fn selected_before(catalog: &ConfiguredCatalog, end: usize, stream: &String) -> (r: bool)
    requires
        end <= catalog.streams@.len(),
    ensures
        r == selects(catalog.streams@.subrange(0, end as int), stream@),
{
    let ghost prefix = catalog.streams@.subrange(0, end as int);
    let mut i: usize = 0;
    while i < end
        invariant
            0 <= i <= end <= catalog.streams@.len(),
            prefix == catalog.streams@.subrange(0, end as int),
            forall|j: int| 0 <= j < i ==> (#[trigger] prefix[j]).name@ != stream@,
        decreases end - i,
    {
        if catalog.streams[i].name == *stream {
            assert(prefix[i as int].name@ == stream@);
            return true;
        }
        i = i + 1;
    }
    false
}

impl CheckpointSet {
    /// Builds the checkpoints of a run from the live metadata, the catalog
    /// and the state persisted by an earlier run (empty on a first run).
    /// Every live partition of every selected stream is tracked, resuming
    /// from its persisted offset or else from 0; nothing else is tracked.
    /// Fails on the first catalog stream for which the broker reports no
    /// topic.
    pub fn reconcile_catalog_state(
        metadata: &Metadata,
        catalog: &ConfiguredCatalog,
        persisted: &CheckpointSet,
    ) -> (r: Result<CheckpointSet, CatalogError>)
        ensures
            r is Ok <==> catalog_resolves(catalog.streams@, metadata.topics@),
            r matches Ok(cs) ==> cs@ == reconciled(metadata.topics@, catalog.streams@, persisted@),
            r matches Err(CatalogError::MissingStream(name)) ==> exists|i: int|
                0 <= i < catalog.streams@.len() && (#[trigger] catalog.streams@[i]).name@ == name@
                    && !has_topic(metadata.topics@, name@) && forall|j: int|
                    0 <= j < i ==> has_topic(metadata.topics@, (#[trigger] catalog.streams@[j]).name@),
    {
        let streams = &catalog.streams;
        let ghost meta = metadata.topics@;
        let mut out = CheckpointSet::new();
        let mut i: usize = 0;
        while i < streams.len()
            invariant
                0 <= i <= streams@.len(),
                streams == catalog.streams,
                meta == metadata.topics@,
                forall|j: int| 0 <= j < i ==> has_topic(meta, (#[trigger] streams@[j]).name@),
                out@ == reconciled(meta, streams@.subrange(0, i as int), persisted@),
            decreases streams@.len() - i,
        {
            let name = &streams[i].name;
            let ghost before = streams@.subrange(0, i as int);
            let ghost upto = streams@.subrange(0, i + 1);
            proof {
                assert(upto =~= before.push(streams@[i as int]));
                assert forall|s: Seq<char>| selects(upto, s) <==> selects(before, s) || s == name@ by {
                    if selects(upto, s) {
                        let j = choose|j: int| 0 <= j < upto.len() && (#[trigger] upto[j]).name@ == s;
                        if j < i {
                            assert(before[j] == upto[j]);
                        }
                    }
                    if selects(before, s) {
                        let j = choose|j: int| 0 <= j < before.len() && (#[trigger] before[j]).name@ == s;
                        assert(upto[j] == before[j]);
                    }
                    if s == name@ {
                        assert(upto[i as int].name@ == s);
                    }
                }
            }
            let count = match partition_count(metadata, name) {
                Some(n) => n,
                None => {
                    return Err(CatalogError::MissingStream(name.clone()));
                },
            };
            if !selected_before(catalog, i, name) {
                let mut p: u32 = 0;
                while p < count
                    invariant
                        0 <= p <= count,
                        !selects(before, name@),
                        forall|q: u32| has_partition(meta, name@, q) <==> q < count,
                        out@ == Map::new(
                            |k: PartitionKey|
                                (selects(before, k.0) && has_partition(meta, k.0, k.1)) || (k.0
                                    == name@ && k.1 < p),
                            |k: PartitionKey| resume_offset(persisted@, k),
                        ),
                    decreases count - p,
                {
                    let offset = match persisted.offset(name, p) {
                        Some(o) => o,
                        None => 0,
                    };
                    let ghost prev = out@;
                    out.add(Checkpoint { stream: name.clone(), partition: p, offset });
                    proof {
                        assert(!prev.contains_key((name@, p)));
                        assert(out@ =~= Map::new(
                            |k: PartitionKey|
                                (selects(before, k.0) && has_partition(meta, k.0, k.1)) || (k.0
                                    == name@ && k.1 < p + 1),
                            |k: PartitionKey| resume_offset(persisted@, k),
                        ));
                    }
                    p = p + 1;
                }
            }
            proof {
                assert(out@ =~= reconciled(meta, upto, persisted@));
            }
            i = i + 1;
        }
        assert(streams@.subrange(0, streams@.len() as int) =~= streams@);
        Ok(out)
    }
}

/// One offset of persisted state, as read back from the external store.
#[derive(Clone, Debug)]
pub struct PersistedOffset {
    pub stream: String,
    pub partition: i64,
    pub offset: i64,
}

/// Why persisted state cannot be taken up.
#[derive(Clone, Debug, PartialEq, Eq)]
pub enum StateError {
    /// A partition index that is negative or beyond the broker's range.
    InvalidPartition(String, i64),
    /// A negative offset.
    InvalidOffset(String, i64),
}

/// Persisted entries that a run can take up: partition indexes fit in `u32`
/// and offsets are not negative.
pub open spec fn persisted_valid(entries: Seq<PersistedOffset>) -> bool {
    forall|i: int|
        0 <= i < entries.len() ==> 0 <= (#[trigger] entries[i]).partition <= u32::MAX && 0
            <= entries[i].offset
}

/// The deltas that persisted entries stand for.
pub open spec fn persisted_deltas(entries: Seq<PersistedOffset>) -> Seq<(PartitionKey, u64)> {
    entries.map_values(
        |e: PersistedOffset| ((e.stream@, e.partition as u32), e.offset as u64),
    )
}

impl CheckpointSet {
    /// Every tracked partition with its next offset, once each.
    pub fn to_vec(&self) -> (r: Vec<Checkpoint>)
        ensures
            r@.len() == self@.len(),
            forall|i: int|
                0 <= i < r@.len() ==> self@.contains_key((#[trigger] r@[i]).key()) && self@[r@[i].key()]
                    == r@[i].offset,
            forall|k: PartitionKey| #[trigger]
                self@.contains_key(k) ==> exists|i: int| 0 <= i < r@.len() && (#[trigger] r@[i]).key() == k,
            forall|i: int, j: int|
                0 <= i < j < r@.len() ==> (#[trigger] r@[i]).key() != (#[trigger] r@[j]).key(),
    {
        proof {
            use_type_invariant(self);
        }
        let mut r: Vec<Checkpoint> = Vec::new();
        let mut i: usize = 0;
        while i < self.entries.len()
            invariant
                0 <= i <= self.entries@.len(),
                unique_keys(self.entries@),
                r@.len() == i,
                forall|j: int| 0 <= j < i ==> (#[trigger] r@[j]).key() == self.entries@[j].key() && r@[j].offset
                    == self.entries@[j].offset,
            decreases self.entries@.len() - i,
        {
            let e = &self.entries[i];
            r.push(Checkpoint { stream: e.stream.clone(), partition: e.partition, offset: e.offset });
            i = i + 1;
        }
        proof {
            assert forall|j: int| 0 <= j < r@.len() implies self@.contains_key((#[trigger] r@[j]).key())
                && self@[r@[j].key()] == r@[j].offset by {
                lemma_entry(self.entries@, j);
            }
            assert forall|k: PartitionKey| #[trigger]
                self@.contains_key(k) implies exists|j: int| 0 <= j < r@.len() && (#[trigger] r@[j]).key() == k by {
                let j = choose|j: int| 0 <= j < self.entries@.len() && (#[trigger] self.entries@[j]).key() == k;
                assert(r@[j].key() == k);
            }
            unique_keys_len(self.entries@);
            assert forall|a: int, b: int| 0 <= a < b < r@.len() implies (#[trigger] r@[a]).key()
                != (#[trigger] r@[b]).key() by {
                assert(self.entries@[a].key() != self.entries@[b].key());
            }
        }
        r
    }

    /// Takes up persisted state: each entry is added in turn, so a partition
    /// listed twice keeps the larger offset. Fails on the first entry with a
    /// partition outside `u32` or a negative offset.
    pub fn from_persisted(entries: &Vec<PersistedOffset>) -> (r: Result<CheckpointSet, StateError>)
        ensures
            r is Ok <==> persisted_valid(entries@),
            r matches Ok(cs) ==> cs@ == advanced_by_all(
                Map::<PartitionKey, u64>::empty(),
                persisted_deltas(entries@),
            ),
            r matches Err(e) ==> exists|i: int|
                0 <= i < entries@.len() && persisted_valid(entries@.subrange(0, i)) && !(0
                    <= (#[trigger] entries@[i]).partition <= u32::MAX && 0 <= entries@[i].offset)
                    && (e == StateError::InvalidPartition(entries@[i].stream, entries@[i].partition)
                    || e == StateError::InvalidOffset(entries@[i].stream, entries@[i].offset)),
    {
        let mut out = CheckpointSet::new();
        let mut i: usize = 0;
        while i < entries.len()
            invariant
                0 <= i <= entries@.len(),
                persisted_valid(entries@.subrange(0, i as int)),
                out@ == advanced_by_all(
                    Map::<PartitionKey, u64>::empty(),
                    persisted_deltas(entries@.subrange(0, i as int)),
                ),
            decreases entries@.len() - i,
        {
            let e = &entries[i];
            if e.partition < 0 || e.partition > u32::MAX as i64 {
                return Err(StateError::InvalidPartition(e.stream.clone(), e.partition));
            }
            if e.offset < 0 {
                return Err(StateError::InvalidOffset(e.stream.clone(), e.offset));
            }
            out.add(Checkpoint { stream: e.stream.clone(), partition: e.partition as u32, offset: e.offset as u64 });
            proof {
                let upto = entries@.subrange(0, i + 1);
                let before = entries@.subrange(0, i as int);
                assert(upto.drop_last() =~= before);
                assert(persisted_deltas(upto).drop_last() =~= persisted_deltas(before));
                assert(persisted_valid(upto)) by {
                    assert forall|j: int| 0 <= j < upto.len() implies 0 <= (#[trigger] upto[j]).partition
                        <= u32::MAX && 0 <= upto[j].offset by {
                        if j < i {
                            assert(upto[j] == before[j]);
                        }
                    }
                }
            }
            i = i + 1;
        }
        assert(entries@.subrange(0, entries@.len() as int) =~= entries@);
        Ok(out)
    }
}

proof fn unique_keys_len(entries: Seq<Checkpoint>)
    requires
        unique_keys(entries),
    ensures
        entries_map(entries).dom().finite(),
        entries_map(entries).len() == entries.len(),
    decreases entries.len(),
{
    let m = entries_map(entries);
    if entries.len() == 0 {
        assert(m =~= Map::<PartitionKey, u64>::empty());
    } else {
        let rest = entries.drop_last();
        let last = entries.last();
        assert(unique_keys(rest)) by {
            assert forall|a: int, b: int| 0 <= a < b < rest.len() implies (#[trigger] rest[a]).key()
                != (#[trigger] rest[b]).key() by {
                assert(entries[a].key() != entries[b].key());
            }
        }
        unique_keys_len(rest);
        assert(!entries_map(rest).contains_key(last.key())) by {
            if holds_key(rest, last.key()) {
                let j = choose|j: int| 0 <= j < rest.len() && (#[trigger] rest[j]).key() == last.key();
                assert(entries[j].key() != entries[entries.len() - 1].key());
            }
        }
        lemma_push(rest, last);
        assert(rest.push(last) =~= entries);
    }
}

/// Persisted state that lists each tracked partition of `offsets` once, with
/// its offset, and nothing else, is taken up as exactly `offsets`.
pub proof fn persisted_round_trip(offsets: Map<PartitionKey, u64>, entries: Seq<PersistedOffset>)
    requires
        persisted_valid(entries),
        forall|i: int, j: int|
            0 <= i < j < entries.len() ==> persisted_deltas(entries)[i].0 != persisted_deltas(
                entries,
            )[j].0,
        forall|i: int|
            0 <= i < entries.len() ==> offsets.contains_key((#[trigger] persisted_deltas(entries)[i]).0)
                && offsets[persisted_deltas(entries)[i].0] == persisted_deltas(entries)[i].1,
        forall|k: PartitionKey| #[trigger]
            offsets.contains_key(k) ==> exists|i: int|
                0 <= i < entries.len() && (#[trigger] persisted_deltas(entries)[i]).0 == k,
    ensures
        advanced_by_all(Map::<PartitionKey, u64>::empty(), persisted_deltas(entries)) == offsets,
    decreases entries.len(),
{
    let deltas = persisted_deltas(entries);
    if entries.len() == 0 {
        assert(offsets =~= Map::<PartitionKey, u64>::empty());
    } else {
        let rest = entries.drop_last();
        let last = deltas.last();
        let smaller = offsets.remove(last.0);
        let rest_deltas = persisted_deltas(rest);
        assert(rest_deltas =~= deltas.drop_last());
        assert(persisted_valid(rest)) by {
            assert forall|i: int| 0 <= i < rest.len() implies 0 <= (#[trigger] rest[i]).partition
                <= u32::MAX && 0 <= rest[i].offset by {
                assert(rest[i] == entries[i]);
            }
        }
        assert forall|i: int| 0 <= i < rest.len() implies smaller.contains_key(
            (#[trigger] rest_deltas[i]).0,
        ) && smaller[rest_deltas[i].0] == rest_deltas[i].1 by {
            assert(rest_deltas[i] == deltas[i]);
            assert(deltas[i].0 != deltas[entries.len() - 1].0);
        }
        assert forall|k: PartitionKey| #[trigger]
            smaller.contains_key(k) implies exists|i: int|
                0 <= i < rest.len() && (#[trigger] rest_deltas[i]).0 == k by {
            let i = choose|i: int| 0 <= i < entries.len() && (#[trigger] deltas[i]).0 == k;
            assert(i != entries.len() - 1);
            assert(rest_deltas[i] == deltas[i]);
        }
        persisted_round_trip(smaller, rest);
        assert(advanced_by_all(Map::<PartitionKey, u64>::empty(), deltas) == advanced(
            smaller,
            last.0,
            last.1,
        ));
        assert(offsets.contains_key(last.0));
        assert(advanced(smaller, last.0, last.1) =~= offsets);
    }
}

/// However `add` is applied, in any sequence, no tracked offset goes down and
/// no tracked partition is forgotten.
pub proof fn add_is_monotone(start: Map<PartitionKey, u64>, deltas: Seq<(PartitionKey, u64)>)
    ensures
        forall|k: PartitionKey| #[trigger]
            start.contains_key(k) ==> advanced_by_all(start, deltas).contains_key(k)
                && advanced_by_all(start, deltas)[k] >= start[k],
    decreases deltas.len(),
{
    if deltas.len() > 0 {
        add_is_monotone(start, deltas.drop_last());
    }
}

/// Reconciling state that is already reconciled, against the same metadata
/// and catalog, changes nothing.
pub proof fn reconcile_is_idempotent(
    metadata: Seq<TopicMetadata>,
    catalog: Seq<ConfiguredStream>,
    persisted: Map<PartitionKey, u64>,
)
    ensures
        reconciled(metadata, catalog, reconciled(metadata, catalog, persisted)) == reconciled(
            metadata,
            catalog,
            persisted,
        ),
{
    assert(reconciled(metadata, catalog, reconciled(metadata, catalog, persisted)) =~= reconciled(
        metadata,
        catalog,
        persisted,
    ));
}

/// A stream that the catalog no longer selects keeps no checkpoint, whatever
/// was persisted for it.
pub proof fn dropped_stream_is_untracked(
    metadata: Seq<TopicMetadata>,
    catalog: Seq<ConfiguredStream>,
    persisted: Map<PartitionKey, u64>,
    stream: Seq<char>,
)
    requires
        !selects(catalog, stream),
    ensures
        forall|p: u32| !(#[trigger] reconciled(metadata, catalog, persisted).contains_key((stream, p))),
{
}

/// Every live partition of a selected stream is tracked: a partition the
/// persisted state held keeps its offset, a newly observed one starts at 0.
pub proof fn live_partition_resumes(
    metadata: Seq<TopicMetadata>,
    catalog: Seq<ConfiguredStream>,
    persisted: Map<PartitionKey, u64>,
    stream: Seq<char>,
    partition: u32,
)
    requires
        selects(catalog, stream),
        has_partition(metadata, stream, partition),
    ensures
        reconciled(metadata, catalog, persisted).contains_key((stream, partition)),
        persisted.contains_key((stream, partition)) ==> reconciled(metadata, catalog, persisted)[(
        stream,
        partition,
        )] == persisted[(stream, partition)],
        !persisted.contains_key((stream, partition)) ==> reconciled(metadata, catalog, persisted)[(
        stream,
        partition,
        )] == 0,
{
}

} // verus!
