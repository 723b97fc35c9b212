//! Turning one polled broker message into an output record and the
//! checkpoint it represents.

use crate::state::Checkpoint;
use serde_json::Error as JsonError;
use vstd::prelude::*;

verus! {

/// serde_json::Value, the decoded payload; carried through opaque.
#[verifier::external_type_specification]
#[verifier::external_body]
pub struct ExJsonValue(serde_json::Value);

/// serde_json::Error, why a payload failed to decode; carried through opaque.
#[verifier::external_type_specification]
#[verifier::external_body]
pub struct ExJsonError(JsonError);

/// Whether the bytes are exactly one JSON document.
pub uninterp spec fn is_json_document(bytes: Seq<u8>) -> bool;

/// Relies on serde_json::from_slice: it succeeds exactly when the bytes hold
/// one JSON document, and the outcome depends on the bytes alone.
#[verifier::external_body]
fn parse_json(bytes: &[u8]) -> (r: Result<serde_json::Value, JsonError>)
    ensures
        r is Ok <==> is_json_document(bytes@),
{
    serde_json::from_slice(bytes)
}

/// A message as handed over by the broker client. Partition and offset are
/// absent when the client did not report them.
#[derive(Clone, Debug)]
pub struct RawMessage {
    pub topic: String,
    pub partition: Option<u32>,
    pub offset: Option<u64>,
    pub payload: Vec<u8>,
}

/// One output record: the decoded payload of the message at `offset` of
/// `partition` of `stream`.
#[derive(Debug)]
pub struct Record {
    pub stream: String,
    pub partition: u32,
    pub offset: u64,
    pub data: serde_json::Value,
}

/// Why a polled message could not be turned into a record.
#[derive(Debug)]
pub enum ProcessingError {
    /// The broker client reported no partition for the message.
    MissingPartition,
    /// The broker client reported no offset for the message.
    MissingOffset,
    /// The offset is the largest one representable: no next offset exists.
    OffsetOverflow,
    /// The payload is not a JSON document.
    Payload(JsonError),
}

/// The message carries a partition and an offset that has a successor.
pub open spec fn well_placed(msg: RawMessage) -> bool {
    msg.partition is Some && msg.offset is Some && msg.offset->0 < u64::MAX
}

/// What `msg` becomes once its payload was parsed with outcome `parsed`: a
/// record of its stream, partition and offset, and the checkpoint one past
/// that offset. Missing placement is reported before a bad payload.
pub fn record_from_parsed(msg: &RawMessage, parsed: Result<serde_json::Value, JsonError>) -> (r:
    Result<(Record, Checkpoint), ProcessingError>)
    ensures
        msg.partition is None ==> r matches Err(ProcessingError::MissingPartition),
        msg.partition is Some && msg.offset is None ==> r matches Err(
            ProcessingError::MissingOffset,
        ),
        msg.partition is Some && msg.offset == Some(u64::MAX) ==> r matches Err(
            ProcessingError::OffsetOverflow,
        ),
        well_placed(*msg) ==> (r is Ok <==> parsed is Ok),
        well_placed(*msg) && parsed is Err ==> r matches Err(ProcessingError::Payload(_)),
        r matches Ok((record, checkpoint)) ==> {
            &&& record.stream@ == msg.topic@
            &&& Some(record.partition) == msg.partition
            &&& Some(record.offset) == msg.offset
            &&& parsed == Ok::<serde_json::Value, JsonError>(record.data)
            &&& checkpoint.stream@ == msg.topic@
            &&& checkpoint.partition == record.partition
            &&& checkpoint.offset == record.offset + 1
        },
{
    let partition = match msg.partition {
        Some(p) => p,
        None => {
            return Err(ProcessingError::MissingPartition);
        },
    };
    let offset = match msg.offset {
        Some(o) => o,
        None => {
            return Err(ProcessingError::MissingOffset);
        },
    };
    if offset == u64::MAX {
        return Err(ProcessingError::OffsetOverflow);
    }
    match parsed {
        Ok(data) => {
            let record = Record { stream: msg.topic.clone(), partition, offset, data };
            let checkpoint = Checkpoint { stream: msg.topic.clone(), partition, offset: offset + 1 };
            Ok((record, checkpoint))
        },
        Err(e) => Err(ProcessingError::Payload(e)),
    }
}

/// Decodes a polled message into its record and the checkpoint delta it
/// represents: its stream and partition, at the offset after its own.
pub fn process_message(msg: &RawMessage) -> (r: Result<(Record, Checkpoint), ProcessingError>)
    ensures
        msg.partition is None ==> r matches Err(ProcessingError::MissingPartition),
        msg.partition is Some && msg.offset is None ==> r matches Err(
            ProcessingError::MissingOffset,
        ),
        msg.partition is Some && msg.offset == Some(u64::MAX) ==> r matches Err(
            ProcessingError::OffsetOverflow,
        ),
        well_placed(*msg) ==> (r is Ok <==> is_json_document(msg.payload@)),
        well_placed(*msg) && !is_json_document(msg.payload@) ==> r matches Err(
            ProcessingError::Payload(_),
        ),
        r matches Ok((record, checkpoint)) ==> {
            &&& record.stream@ == msg.topic@
            &&& Some(record.partition) == msg.partition
            &&& Some(record.offset) == msg.offset
            &&& checkpoint.stream@ == msg.topic@
            &&& checkpoint.partition == record.partition
            &&& checkpoint.offset == record.offset + 1
        },
{
    let parsed = parse_json(msg.payload.as_slice());
    record_from_parsed(msg, parsed)
}

} // verus!
