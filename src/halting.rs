//! The halt policy: a bounded run stops once every partition has been read up
//! to the high watermark captured when the run subscribed.

use crate::catalog::{all_bounded, ConfiguredCatalog, ConfiguredStream, SyncMode};
use crate::state::{resume_offset, CheckpointSet, PartitionKey};
use vstd::prelude::*;

verus! {

/// The high watermark of one partition (one past its newest message) as seen
/// at subscribe time.
#[derive(Clone, Debug)]
pub struct Watermark {
    pub stream: String,
    pub partition: u32,
    pub high_watermark: u64,
}

impl Watermark {
    pub open spec fn key(&self) -> PartitionKey {
        (self.stream@, self.partition)
    }
}

/// Whether a run is complete: every stream is bounded, and every partition of
/// the snapshot has its next offset (0 when untracked) at or past its
/// watermark.
pub open spec fn halts(
    bounded: bool,
    snapshot: Seq<Watermark>,
    checkpoints: Map<PartitionKey, u64>,
) -> bool {
    bounded && forall|i: int|
        0 <= i < snapshot.len() ==> resume_offset(checkpoints, (#[trigger] snapshot[i]).key())
            >= snapshot[i].high_watermark
}

/// Decides, after each checkpoint update, whether the run is complete.
#[derive(Debug)]
pub struct HaltCheck {
    bounded: bool,
    watermarks: Vec<Watermark>,
}

impl HaltCheck {
    /// Whether every stream of the catalog is bounded.
    pub closed spec fn bounded(&self) -> bool {
        self.bounded
    }

    /// The watermark snapshot; it never changes after capture.
    pub closed spec fn snapshot(&self) -> Seq<Watermark> {
        self.watermarks@
    }

    /// A policy for `catalog` over the watermarks captured at subscribe time.
    pub fn new(catalog: &ConfiguredCatalog, watermarks: Vec<Watermark>) -> (r: HaltCheck)
        ensures
            r.bounded() == all_bounded(catalog.streams@),
            r.snapshot() == watermarks@,
    {
        HaltCheck { bounded: catalog.is_bounded(), watermarks }
    }

    /// Whether consumption is complete for these checkpoints. A run with an
    /// unbounded stream never is.
    pub fn should_halt(&self, checkpoints: &CheckpointSet) -> (r: bool)
        ensures
            r == halts(self.bounded(), self.snapshot(), checkpoints@),
    {
        if !self.bounded {
            return false;
        }
        let mut i: usize = 0;
        while i < self.watermarks.len()
            invariant
                0 <= i <= self.watermarks@.len(),
                forall|j: int|
                    0 <= j < i ==> resume_offset(checkpoints@, (#[trigger] self.watermarks@[j]).key())
                        >= self.watermarks@[j].high_watermark,
            decreases self.watermarks@.len() - i,
        {
            let w = &self.watermarks[i];
            let offset = match checkpoints.offset(&w.stream, w.partition) {
                Some(o) => o,
                None => 0,
            };
            if offset < w.high_watermark {
                return false;
            }
            i = i + 1;
        }
        true
    }
}

/// A catalog with an unbounded stream never halts, whatever the checkpoints
/// and watermarks.
pub proof fn unbounded_never_halts(
    catalog: Seq<ConfiguredStream>,
    snapshot: Seq<Watermark>,
    checkpoints: Map<PartitionKey, u64>,
    unbounded: int,
)
    requires
        0 <= unbounded < catalog.len(),
        catalog[unbounded].sync_mode == SyncMode::Incremental,
    ensures
        !halts(all_bounded(catalog), snapshot, checkpoints),
{
    assert(catalog[unbounded].sync_mode != SyncMode::FullRefresh);
}

} // verus!
