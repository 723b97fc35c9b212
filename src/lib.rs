//! Read path of a Kafka source connector: partition checkpoint reconciliation,
//! watermark-bounded halting, message processing and the consumption loop.

pub mod catalog;
pub mod halting;
pub mod message;
pub mod read;
pub mod state;

use crate::catalog::{catalog_resolves, ConfiguredCatalog, Metadata};
use crate::halting::{HaltCheck, Watermark};
use crate::message::ProcessingError;
use crate::read::{phase_after, ReadLoop};
use crate::state::{reconciled, CatalogError, CheckpointSet, PartitionKey, StateError};
use vstd::prelude::*;

verus! {

/// A failure of the broker client; fatal to the run.
#[derive(Clone, Debug, PartialEq, Eq)]
pub enum BrokerError {
    /// Polling for the next message failed.
    Read(String),
}

/// The terminal error of a run.
#[derive(Debug)]
pub enum Error {
    /// Failed when interacting with Kafka.
    Kafka(BrokerError),
    /// Failed to process a message.
    Message(ProcessingError),
    /// The catalog does not match the broker's topics.
    Catalog(CatalogError),
    /// The persisted state cannot be taken up.
    State(StateError),
}

/// The connector itself; its operations are driven by the host process.
pub struct KafkaConnector;

impl KafkaConnector {
    /// The starting checkpoints of a read: persisted state (none on a first
    /// run) reconciled with the live metadata and the catalog.
    pub fn prepare_read(
        metadata: &Metadata,
        catalog: &ConfiguredCatalog,
        persisted: Option<CheckpointSet>,
    ) -> (r: Result<CheckpointSet, Error>)
        ensures
            r is Ok <==> catalog_resolves(catalog.streams@, metadata.topics@),
            r matches Ok(cs) ==> cs@ == reconciled(
                metadata.topics@,
                catalog.streams@,
                match persisted {
                    Some(p) => p@,
                    None => Map::<PartitionKey, u64>::empty(),
                },
            ),
            r matches Err(e) ==> e is Catalog,
    {
        let persisted = match persisted {
            Some(p) => p,
            None => CheckpointSet::new(),
        };
        match CheckpointSet::reconcile_catalog_state(metadata, catalog, &persisted) {
            Ok(cs) => Ok(cs),
            Err(e) => Err(Error::Catalog(e)),
        }
    }

    /// The polling loop of a read, over the reconciled checkpoints and the
    /// watermarks captured once subscribed.
    pub fn start_polling(
        catalog: &ConfiguredCatalog,
        checkpoints: CheckpointSet,
        watermarks: Vec<Watermark>,
    ) -> (r: ReadLoop)
        ensures
            r.offsets() == checkpoints@,
            r.bounded() == catalog::all_bounded(catalog.streams@),
            r.snapshot() == watermarks@,
            r.state() == phase_after(r.bounded(), r.snapshot(), r.offsets()),
    {
        ReadLoop::new(checkpoints, HaltCheck::new(catalog, watermarks))
    }
}

} // verus!
