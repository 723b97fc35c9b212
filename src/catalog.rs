//! The configured catalog (which streams to sync, and how) and the live topic
//! metadata reported by the broker.

use vstd::prelude::*;

verus! {

/// How a stream is synced within one run.
#[derive(Clone, Copy, Debug, PartialEq, Eq, Structural)]
pub enum SyncMode {
    /// Bounded: read up to the watermarks captured at subscribe time, then stop.
    FullRefresh,
    /// Unbounded: keep polling until the host stops the run.
    Incremental,
}

/// One stream selected for this run; a stream corresponds to one topic.
#[derive(Clone, Debug)]
pub struct ConfiguredStream {
    pub name: String,
    pub sync_mode: SyncMode,
}

/// The set of streams the operator wants synced in this run.
#[derive(Clone, Debug)]
pub struct ConfiguredCatalog {
    pub streams: Vec<ConfiguredStream>,
}

/// Partition layout of one topic: its partitions are `0 .. partitions`.
#[derive(Clone, Debug)]
pub struct TopicMetadata {
    pub name: String,
    pub partitions: u32,
}

/// Live partition layout of the topics known to the broker.
#[derive(Clone, Debug)]
pub struct Metadata {
    pub topics: Vec<TopicMetadata>,
}

/// The catalog selects a stream of this name.
pub open spec fn selects(catalog: Seq<ConfiguredStream>, stream: Seq<char>) -> bool {
    exists|i: int| 0 <= i < catalog.len() && (#[trigger] catalog[i]).name@ == stream
}

/// The broker reports a topic of this name.
pub open spec fn has_topic(metadata: Seq<TopicMetadata>, stream: Seq<char>) -> bool {
    exists|i: int| 0 <= i < metadata.len() && (#[trigger] metadata[i]).name@ == stream
}

/// The broker reports partition `partition` for topic `stream`.
pub open spec fn has_partition(metadata: Seq<TopicMetadata>, stream: Seq<char>, partition: u32) -> bool {
    exists|i: int|
        0 <= i < metadata.len() && (#[trigger] metadata[i]).name@ == stream && partition
            < metadata[i].partitions
}

/// Every stream of the catalog exists as a topic.
pub open spec fn catalog_resolves(catalog: Seq<ConfiguredStream>, metadata: Seq<TopicMetadata>) -> bool {
    forall|i: int| 0 <= i < catalog.len() ==> has_topic(metadata, (#[trigger] catalog[i]).name@)
}

/// Every stream of the catalog is synced in bounded mode.
pub open spec fn all_bounded(catalog: Seq<ConfiguredStream>) -> bool {
    forall|i: int| 0 <= i < catalog.len() ==> (#[trigger] catalog[i]).sync_mode == SyncMode::FullRefresh
}

impl ConfiguredCatalog {
    /// Whether every selected stream is bounded.
    pub fn is_bounded(&self) -> (r: bool)
        ensures
            r == all_bounded(self.streams@),
    {
        let mut i: usize = 0;
        while i < self.streams.len()
            invariant
                0 <= i <= self.streams@.len(),
                forall|j: int| 0 <= j < i ==> (#[trigger] self.streams@[j]).sync_mode == SyncMode::FullRefresh,
            decreases self.streams@.len() - i,
        {
            if self.streams[i].sync_mode != SyncMode::FullRefresh {
                return false;
            }
            i = i + 1;
        }
        true
    }
}

} // verus!
