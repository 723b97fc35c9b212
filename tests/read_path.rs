use source_kafka::catalog::{ConfiguredCatalog, ConfiguredStream, Metadata, SyncMode, TopicMetadata};
use source_kafka::halting::{HaltCheck, Watermark};
use source_kafka::message::{process_message, record_from_parsed, ProcessingError, RawMessage};
use source_kafka::read::{Output, ReadLoop, ReadPhase};
use source_kafka::state::{CatalogError, Checkpoint, CheckpointSet, PersistedOffset, StateError};
use source_kafka::{BrokerError, Error, KafkaConnector};

fn stream(name: &str, sync_mode: SyncMode) -> ConfiguredStream {
    ConfiguredStream { name: name.to_string(), sync_mode }
}

fn catalog(streams: Vec<ConfiguredStream>) -> ConfiguredCatalog {
    ConfiguredCatalog { streams }
}

fn metadata(topics: &[(&str, u32)]) -> Metadata {
    Metadata {
        topics: topics
            .iter()
            .map(|(name, partitions)| TopicMetadata { name: name.to_string(), partitions: *partitions })
            .collect(),
    }
}

fn checkpoint(stream: &str, partition: u32, offset: u64) -> Checkpoint {
    Checkpoint { stream: stream.to_string(), partition, offset }
}

fn set_of(entries: &[(&str, u32, u64)]) -> CheckpointSet {
    let mut cs = CheckpointSet::new();
    for (s, p, o) in entries {
        cs.add(checkpoint(s, *p, *o));
    }
    cs
}

fn message(topic: &str, partition: u32, offset: u64, payload: &str) -> RawMessage {
    RawMessage {
        topic: topic.to_string(),
        partition: Some(partition),
        offset: Some(offset),
        payload: payload.as_bytes().to_vec(),
    }
}

fn sorted(cs: &CheckpointSet) -> Vec<(String, u32, u64)> {
    let mut v: Vec<(String, u32, u64)> =
        cs.to_vec().into_iter().map(|c| (c.stream, c.partition, c.offset)).collect();
    v.sort();
    v
}

fn owned(entries: &[(&str, u32, u64)]) -> Vec<(String, u32, u64)> {
    entries.iter().map(|(s, p, o)| (s.to_string(), *p, *o)).collect()
}

fn watermark(stream: &str, partition: u32, high_watermark: u64) -> Watermark {
    Watermark { stream: stream.to_string(), partition, high_watermark }
}

#[test]
fn add_never_lowers_an_offset() {
    let mut cs = CheckpointSet::new();
    cs.add(checkpoint("t", 0, 5));
    assert_eq!(cs.offset(&"t".to_string(), 0), Some(5));
    cs.add(checkpoint("t", 0, 3));
    assert_eq!(cs.offset(&"t".to_string(), 0), Some(5));
    cs.add(checkpoint("t", 0, 5));
    assert_eq!(cs.offset(&"t".to_string(), 0), Some(5));
    cs.add(checkpoint("t", 0, 7));
    assert_eq!(cs.offset(&"t".to_string(), 0), Some(7));
    cs.add(checkpoint("t", 1, 2));
    assert_eq!(sorted(&cs), owned(&[("t", 0, 7), ("t", 1, 2)]));
    assert_eq!(cs.offset(&"u".to_string(), 0), None);
}

#[test]
fn new_stream_starts_every_partition_at_zero() {
    let meta = metadata(&[("orders", 3)]);
    let cat = catalog(vec![stream("orders", SyncMode::FullRefresh)]);
    let cs = CheckpointSet::reconcile_catalog_state(&meta, &cat, &CheckpointSet::new()).unwrap();
    assert_eq!(sorted(&cs), owned(&[("orders", 0, 0), ("orders", 1, 0), ("orders", 2, 0)]));
}

#[test]
fn repartitioned_topic_keeps_old_offsets_and_starts_new_ones_at_zero() {
    let meta = metadata(&[("t", 4)]);
    let cat = catalog(vec![stream("t", SyncMode::FullRefresh)]);
    let persisted = set_of(&[("t", 0, 10), ("t", 1, 20)]);
    let cs = CheckpointSet::reconcile_catalog_state(&meta, &cat, &persisted).unwrap();
    assert_eq!(sorted(&cs), owned(&[("t", 0, 10), ("t", 1, 20), ("t", 2, 0), ("t", 3, 0)]));
}

#[test]
fn shrunk_topic_drops_vanished_partitions() {
    let meta = metadata(&[("t", 1)]);
    let cat = catalog(vec![stream("t", SyncMode::Incremental)]);
    let persisted = set_of(&[("t", 0, 4), ("t", 1, 9)]);
    let cs = CheckpointSet::reconcile_catalog_state(&meta, &cat, &persisted).unwrap();
    assert_eq!(sorted(&cs), owned(&[("t", 0, 4)]));
}

#[test]
fn unselected_stream_is_dropped() {
    let meta = metadata(&[("a", 1), ("b", 2)]);
    let cat = catalog(vec![stream("a", SyncMode::FullRefresh)]);
    let persisted = set_of(&[("a", 0, 3), ("b", 0, 8), ("b", 1, 9)]);
    let cs = CheckpointSet::reconcile_catalog_state(&meta, &cat, &persisted).unwrap();
    assert_eq!(sorted(&cs), owned(&[("a", 0, 3)]));
    assert_eq!(cs.offset(&"b".to_string(), 0), None);
}

#[test]
fn duplicate_catalog_entries_track_a_stream_once() {
    let meta = metadata(&[("a", 2)]);
    let cat = catalog(vec![stream("a", SyncMode::FullRefresh), stream("a", SyncMode::FullRefresh)]);
    let cs = CheckpointSet::reconcile_catalog_state(&meta, &cat, &set_of(&[("a", 1, 6)])).unwrap();
    assert_eq!(sorted(&cs), owned(&[("a", 0, 0), ("a", 1, 6)]));
}

#[test]
fn missing_topic_is_a_catalog_error() {
    let meta = metadata(&[("a", 1)]);
    let cat = catalog(vec![stream("a", SyncMode::FullRefresh), stream("ghost", SyncMode::FullRefresh)]);
    let r = CheckpointSet::reconcile_catalog_state(&meta, &cat, &CheckpointSet::new());
    assert_eq!(r.unwrap_err(), CatalogError::MissingStream("ghost".to_string()));
    let e = KafkaConnector::prepare_read(&meta, &cat, None).unwrap_err();
    assert!(matches!(e, Error::Catalog(CatalogError::MissingStream(ref s)) if s == "ghost"));
}

#[test]
fn reconciling_twice_changes_nothing() {
    let meta = metadata(&[("a", 3), ("b", 1)]);
    let cat = catalog(vec![stream("a", SyncMode::FullRefresh), stream("b", SyncMode::Incremental)]);
    let persisted = set_of(&[("a", 1, 4), ("a", 7, 2), ("c", 0, 1)]);
    let once = CheckpointSet::reconcile_catalog_state(&meta, &cat, &persisted).unwrap();
    let twice = CheckpointSet::reconcile_catalog_state(&meta, &cat, &once).unwrap();
    assert_eq!(sorted(&once), sorted(&twice));
    assert_eq!(sorted(&once), owned(&[("a", 0, 0), ("a", 1, 4), ("a", 2, 0), ("b", 0, 0)]));
}

#[test]
fn persisted_state_round_trips_through_reconcile() {
    let meta = metadata(&[("a", 2)]);
    let cat = catalog(vec![stream("a", SyncMode::FullRefresh)]);
    let first = CheckpointSet::reconcile_catalog_state(&meta, &cat, &set_of(&[("a", 0, 3)])).unwrap();
    let stored: Vec<PersistedOffset> = first
        .to_vec()
        .into_iter()
        .map(|c| PersistedOffset { stream: c.stream, partition: c.partition as i64, offset: c.offset as i64 })
        .collect();
    let back = CheckpointSet::from_persisted(&stored).unwrap();
    let again = CheckpointSet::reconcile_catalog_state(&meta, &cat, &back).unwrap();
    assert_eq!(sorted(&first), sorted(&again));
}

#[test]
fn persisted_state_rejects_bad_entries_and_keeps_larger_duplicate() {
    let ok = vec![
        PersistedOffset { stream: "a".to_string(), partition: 0, offset: 4 },
        PersistedOffset { stream: "a".to_string(), partition: 0, offset: 2 },
    ];
    assert_eq!(sorted(&CheckpointSet::from_persisted(&ok).unwrap()), owned(&[("a", 0, 4)]));
    let bad_offset = vec![PersistedOffset { stream: "a".to_string(), partition: 0, offset: -1 }];
    assert_eq!(
        CheckpointSet::from_persisted(&bad_offset).unwrap_err(),
        StateError::InvalidOffset("a".to_string(), -1)
    );
    let bad_partition = vec![PersistedOffset { stream: "a".to_string(), partition: -2, offset: 0 }];
    assert_eq!(
        CheckpointSet::from_persisted(&bad_partition).unwrap_err(),
        StateError::InvalidPartition("a".to_string(), -2)
    );
    let too_large = vec![PersistedOffset { stream: "a".to_string(), partition: 1 << 32, offset: 0 }];
    assert!(CheckpointSet::from_persisted(&too_large).is_err());
}

#[test]
fn halts_at_once_when_watermark_equals_persisted_offset() {
    let cat = catalog(vec![stream("t", SyncMode::FullRefresh)]);
    let cs = set_of(&[("t", 0, 5)]);
    let halt = HaltCheck::new(&cat, vec![watermark("t", 0, 5)]);
    assert!(halt.should_halt(&cs));
    let run = KafkaConnector::start_polling(&cat, cs, vec![watermark("t", 0, 5)]);
    assert_eq!(run.phase(), ReadPhase::Halted);
}

#[test]
fn halts_after_reading_up_to_watermark() {
    let cat = catalog(vec![stream("t", SyncMode::FullRefresh)]);
    let halt = HaltCheck::new(&cat, vec![watermark("t", 0, 8)]);
    let mut run = ReadLoop::new(set_of(&[("t", 0, 5)]), halt);
    assert_eq!(run.phase(), ReadPhase::Polling);
    run.on_message(&message("t", 0, 5, "{}")).unwrap();
    assert_eq!(run.phase(), ReadPhase::Polling);
    run.on_message(&message("t", 0, 6, "{}")).unwrap();
    assert_eq!(run.phase(), ReadPhase::Polling);
    run.on_message(&message("t", 0, 7, "{}")).unwrap();
    assert_eq!(run.phase(), ReadPhase::Halted);
    assert_eq!(run.checkpoints().offset(&"t".to_string(), 0), Some(8));
}

#[test]
fn one_below_watermark_does_not_halt() {
    let cat = catalog(vec![stream("t", SyncMode::FullRefresh)]);
    let halt = HaltCheck::new(&cat, vec![watermark("t", 0, 8)]);
    assert!(!halt.should_halt(&set_of(&[("t", 0, 7)])));
    assert!(halt.should_halt(&set_of(&[("t", 0, 8)])));
    assert!(halt.should_halt(&set_of(&[("t", 0, 9)])));
    assert!(!halt.should_halt(&CheckpointSet::new()));
}

#[test]
fn unbounded_stream_never_halts() {
    let cat = catalog(vec![stream("a", SyncMode::FullRefresh), stream("b", SyncMode::Incremental)]);
    let cs = set_of(&[("a", 0, 5), ("b", 0, 5)]);
    let halt = HaltCheck::new(&cat, vec![watermark("a", 0, 5), watermark("b", 0, 5)]);
    assert!(!halt.should_halt(&cs));
    let empty = HaltCheck::new(&cat, vec![]);
    assert!(!empty.should_halt(&cs));
}

#[test]
fn record_is_emitted_before_its_checkpoint() {
    let cat = catalog(vec![stream("t", SyncMode::Incremental)]);
    let mut run = ReadLoop::new(set_of(&[("t", 2, 0)]), HaltCheck::new(&cat, vec![]));
    let out = run.on_message(&message("t", 2, 41, "{\"id\": 7}")).unwrap();
    assert_eq!(out.len(), 2);
    match (&out[0], &out[1]) {
        (Output::Record(r), Output::State(c)) => {
            assert_eq!((r.stream.as_str(), r.partition, r.offset), ("t", 2, 41));
            assert_eq!(r.data["id"], 7);
            assert_eq!((c.stream.as_str(), c.partition, c.offset), ("t", 2, 42));
        }
        _ => panic!("record then checkpoint expected"),
    }
    assert_eq!(run.phase(), ReadPhase::Polling);
}

#[test]
fn bounded_topic_read_end_to_end() {
    let meta = metadata(&[("orders", 1)]);
    let cat = catalog(vec![stream("orders", SyncMode::FullRefresh)]);
    let cs = KafkaConnector::prepare_read(&meta, &cat, None).unwrap();
    assert_eq!(sorted(&cs), owned(&[("orders", 0, 0)]));
    let mut run = KafkaConnector::start_polling(&cat, cs, vec![watermark("orders", 0, 3)]);
    let mut polled: Vec<RawMessage> = (0..4u64)
        .map(|o| message("orders", 0, o, &format!("{{\"n\": {}}}", o)))
        .rev()
        .collect();
    let mut emitted: Vec<String> = Vec::new();
    let mut polls = 0;
    while run.phase() == ReadPhase::Polling {
        let msg = polled.pop().unwrap();
        polls += 1;
        for o in run.on_message(&msg).unwrap() {
            match o {
                Output::Record(r) => emitted.push(format!("record {}", r.offset)),
                Output::State(c) => emitted.push(format!("state {}", c.offset)),
            }
        }
    }
    assert_eq!(polls, 3);
    assert_eq!(run.phase(), ReadPhase::Halted);
    assert_eq!(
        emitted,
        vec!["record 0", "state 1", "record 1", "state 2", "record 2", "state 3"]
    );
}

#[test]
fn message_without_placement_is_rejected() {
    let mut m = message("t", 0, 1, "{}");
    m.partition = None;
    assert!(matches!(process_message(&m), Err(ProcessingError::MissingPartition)));
    let mut m = message("t", 0, 1, "{}");
    m.offset = None;
    assert!(matches!(process_message(&m), Err(ProcessingError::MissingOffset)));
    let m = message("t", 0, u64::MAX, "{}");
    assert!(matches!(process_message(&m), Err(ProcessingError::OffsetOverflow)));
}

#[test]
fn undecodable_payload_fails_the_run() {
    let m = message("t", 0, 1, "not json");
    assert!(matches!(process_message(&m), Err(ProcessingError::Payload(_))));
    let cat = catalog(vec![stream("t", SyncMode::FullRefresh)]);
    let mut run = ReadLoop::new(set_of(&[("t", 0, 1)]), HaltCheck::new(&cat, vec![watermark("t", 0, 9)]));
    let e = run.on_message(&m).unwrap_err();
    assert!(matches!(e, Error::Message(ProcessingError::Payload(_))));
    assert_eq!(run.phase(), ReadPhase::Failed);
    assert_eq!(run.checkpoints().offset(&"t".to_string(), 0), Some(1));
}

#[test]
fn decoded_payload_is_carried_into_the_record() {
    let m = message("t", 3, 9, "[1, 2]");
    let (record, cp) = process_message(&m).unwrap();
    assert_eq!(record.data[1], 2);
    assert_eq!((cp.partition, cp.offset), (3, 10));
    let parsed = serde_json::from_str::<serde_json::Value>("\"x\"");
    let (record, _) = record_from_parsed(&m, parsed).unwrap();
    assert_eq!(record.data, "x");
    let failed = serde_json::from_str::<serde_json::Value>("{");
    assert!(matches!(record_from_parsed(&m, failed), Err(ProcessingError::Payload(_))));
}

#[test]
fn poll_failure_fails_the_run() {
    let cat = catalog(vec![stream("t", SyncMode::Incremental)]);
    let mut run = ReadLoop::new(CheckpointSet::new(), HaltCheck::new(&cat, vec![]));
    let e = run.on_poll_error("broker gone".to_string());
    assert!(matches!(e, Error::Kafka(BrokerError::Read(ref m)) if m == "broker gone"));
    assert_eq!(run.phase(), ReadPhase::Failed);
}
