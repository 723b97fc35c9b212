//! The consumption loop as a state machine: the host polls the broker and
//! hands each message or failure in; the loop applies it and says what to
//! emit and whether to go on.

use crate::halting::{halts, HaltCheck, Watermark};
use crate::message::{is_json_document, process_message, well_placed, ProcessingError, Record, RawMessage};
use crate::state::{advanced, Checkpoint, CheckpointSet, PartitionKey};
use crate::{BrokerError, Error};
use vstd::prelude::*;

verus! {

/// Where the loop stands.
#[derive(Clone, Copy, Debug, PartialEq, Eq, Structural)]
pub enum ReadPhase {
    /// More messages are wanted: poll the broker.
    Polling,
    /// Every bounded partition reached its watermark: the run is complete.
    Halted,
    /// A poll or a message failed: the run is over, with that error.
    Failed,
}

/// One message for the downstream consumer, to be written and flushed in order.
#[derive(Debug)]
pub enum Output {
    Record(Record),
    State(Checkpoint),
}

/// The phase that follows a checkpoint update.
pub open spec fn phase_after(bounded: bool, snapshot: Seq<Watermark>, offsets: Map<PartitionKey, u64>) -> ReadPhase {
    if halts(bounded, snapshot, offsets) {
        ReadPhase::Halted
    } else {
        ReadPhase::Polling
    }
}

/// The state of one read: the live checkpoints, the halt policy, the phase.
#[derive(Debug)]
pub struct ReadLoop {
    checkpoints: CheckpointSet,
    halt_check: HaltCheck,
    phase: ReadPhase,
}

impl ReadLoop {
    /// The checkpoints applied so far.
    pub closed spec fn offsets(&self) -> Map<PartitionKey, u64> {
        self.checkpoints@
    }

    /// Whether every stream of the run is bounded.
    pub closed spec fn bounded(&self) -> bool {
        self.halt_check.bounded()
    }

    /// The watermark snapshot the run halts at.
    pub closed spec fn snapshot(&self) -> Seq<Watermark> {
        self.halt_check.snapshot()
    }

    /// Where the loop stands.
    pub closed spec fn state(&self) -> ReadPhase {
        self.phase
    }

    /// Starts polling from the reconciled checkpoints; a run that has
    /// nothing to read halts at once.
    pub fn new(checkpoints: CheckpointSet, halt_check: HaltCheck) -> (r: ReadLoop)
        ensures
            r.offsets() == checkpoints@,
            r.bounded() == halt_check.bounded(),
            r.snapshot() == halt_check.snapshot(),
            r.state() == phase_after(r.bounded(), r.snapshot(), r.offsets()),
    {
        let phase = if halt_check.should_halt(&checkpoints) {
            ReadPhase::Halted
        } else {
            ReadPhase::Polling
        };
        ReadLoop { checkpoints, halt_check, phase }
    }

    /// Where the loop stands.
    pub fn phase(&self) -> (r: ReadPhase)
        ensures
            r == self.state(),
    {
        self.phase
    }

    /// The checkpoints applied so far, to persist or to subscribe from.
    pub fn checkpoints(&self) -> (r: &CheckpointSet)
        ensures
            r@ == self.offsets(),
    {
        &self.checkpoints
    }

    /// Handles one polled message: decodes it, applies its checkpoint, and
    /// returns the record followed by that checkpoint, then consults the halt
    /// policy. A message that cannot be processed fails the run and applies
    /// nothing.
    pub fn on_message(&mut self, msg: &RawMessage) -> (r: Result<Vec<Output>, Error>)
        requires
            old(self).state() == ReadPhase::Polling,
        ensures
            final(self).bounded() == old(self).bounded(),
            final(self).snapshot() == old(self).snapshot(),
            r is Ok <==> well_placed(*msg) && is_json_document(msg.payload@),
            msg.partition is None ==> r matches Err(Error::Message(ProcessingError::MissingPartition)),
            msg.partition is Some && msg.offset is None ==> r matches Err(
                Error::Message(ProcessingError::MissingOffset),
            ),
            msg.partition is Some && msg.offset == Some(u64::MAX) ==> r matches Err(
                Error::Message(ProcessingError::OffsetOverflow),
            ),
            well_placed(*msg) && !is_json_document(msg.payload@) ==> r matches Err(
                Error::Message(ProcessingError::Payload(_)),
            ),
            r is Err ==> final(self).state() == ReadPhase::Failed && final(self).offsets() == old(
                self,
            ).offsets(),
            r matches Ok(out) ==> {
                &&& out@.len() == 2
                &&& out@[0] matches Output::Record(record)
                &&& out@[1] matches Output::State(checkpoint)
                &&& record.stream@ == msg.topic@
                &&& Some(record.partition) == msg.partition
                &&& Some(record.offset) == msg.offset
                &&& checkpoint.stream@ == msg.topic@
                &&& checkpoint.partition == record.partition
                &&& checkpoint.offset == record.offset + 1
                &&& final(self).offsets() == advanced(
                    old(self).offsets(),
                    checkpoint.key(),
                    checkpoint.offset,
                )
                &&& final(self).state() == phase_after(
                    final(self).bounded(),
                    final(self).snapshot(),
                    final(self).offsets(),
                )
            },
    {
        match process_message(msg) {
            Ok((record, checkpoint)) => {
                let delta = Checkpoint {
                    stream: checkpoint.stream.clone(),
                    partition: checkpoint.partition,
                    offset: checkpoint.offset,
                };
                self.checkpoints.add(delta);
                if self.halt_check.should_halt(&self.checkpoints) {
                    self.phase = ReadPhase::Halted;
                }
                let mut out: Vec<Output> = Vec::new();
                out.push(Output::Record(record));
                out.push(Output::State(checkpoint));
                Ok(out)
            },
            Err(e) => {
                self.phase = ReadPhase::Failed;
                Err(Error::Message(e))
            },
        }
    }

    /// Handles a failed poll: the run fails with the broker's reason.
    pub fn on_poll_error(&mut self, reason: String) -> (r: Error)
        ensures
            final(self).state() == ReadPhase::Failed,
            final(self).offsets() == old(self).offsets(),
            final(self).bounded() == old(self).bounded(),
            final(self).snapshot() == old(self).snapshot(),
            r matches Error::Kafka(BrokerError::Read(m)) && m@ == reason@,
    {
        self.phase = ReadPhase::Failed;
        Error::Kafka(BrokerError::Read(reason))
    }
}

} // verus!
