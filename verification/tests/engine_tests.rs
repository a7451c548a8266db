use eventledger_core::compactor::{Attribute, ChangeRecord, Compaction, CompactionOutcome};
use eventledger_core::memory::MemoryTable;
use eventledger_core::operation::{drive, Operation};
use eventledger_core::poll::Poll;
use eventledger_core::publisher::Publish;
use eventledger_core::registry::{CreateStream, DeleteStream};
use eventledger_core::replies::{
    compacted_from_reply, compacted_list_from_reply, events_from_reply, offset_from_reply,
    stream_from_reply, streams_from_reply, subscription_from_reply, written_from_reply,
};
use eventledger_core::store::{Row, Step, StoreReply, StoreRequest};
use eventledger_core::subscriptions::{CommitOffsets, CreateSubscription};
use eventledger_core::{
    CommitRequest, CompactedEvent, CreateStreamRequest, CursorState, DynamoClient, Error, Event,
    PartitionOffset, PollRequest, PollResponse, PublishedEvent, PublishEvent, StartFrom, Stream,
    Subscription, Timestamp,
};

/// The library's table in memory, with a count of the requests, a record of
/// what was written, and failures on demand.
struct Table {
    inner: MemoryTable,
    /// Every row that was written, in order: the change feed.
    written: Vec<(String, String, Row)>,
    requests: usize,
    fail_at: Option<usize>,
}

impl Table {
    fn new() -> Table {
        Table { inner: MemoryTable::new(), written: Vec::new(), requests: 0, fail_at: None }
    }

    fn execute(&mut self, request: StoreRequest) -> StoreReply {
        self.requests += 1;
        if self.fail_at == Some(self.requests) {
            return StoreReply::Failed("boom".to_string());
        }
        let attempt = match &request {
            StoreRequest::Put { pk, sk, row } | StoreRequest::PutIfAbsent { pk, sk, row } => {
                Some((pk.clone(), sk.clone(), row.clone()))
            }
            _ => None,
        };
        let reply = self.inner.answer(request);
        if let (Some(row), StoreReply::Done) = (attempt, &reply) {
            self.written.push(row);
        }
        reply
    }

    fn holds(&self, pk: &str, sk: &str) -> Option<Row> {
        self.inner.get(pk, sk)
    }

    fn len(&self) -> usize {
        self.inner.len()
    }
}

fn run<O: Operation>(table: &mut Table, operation: O) -> Result<O::Output, Error> {
    let mut operation = operation;
    let mut reply = None;
    for _ in 0..100_000 {
        let (next, step) = operation.advance(reply);
        operation = next;
        match step {
            Step::Call(request) => reply = Some(table.execute(request)),
            Step::Done(result) => return result,
        }
    }
    panic!("the operation does not end");
}

const T0: Timestamp = Timestamp { seconds: 1_700_000_000, nanos: 0 };

fn at(seconds: i64) -> Timestamp {
    Timestamp { seconds, nanos: 0 }
}

fn create(table: &mut Table, stream_id: &str, partitions: u32, hours: u32) -> Result<Stream, Error> {
    let request = CreateStreamRequest {
        stream_id: stream_id.to_string(),
        partition_count: partitions,
        retention_hours: hours,
    };
    run(table, CreateStream::new(&request, T0))
}

fn get_stream(table: &mut Table, stream_id: &str) -> Result<Stream, Error> {
    let client = DynamoClient::new(None);
    let reply = table.execute(client.get_stream(stream_id));
    stream_from_reply(reply, stream_id)
}

fn subscribe(table: &mut Table, stream_id: &str, sub: &str, from: StartFrom) -> Result<Subscription, Error> {
    run(table, CreateSubscription::new(stream_id, sub, from, T0))
}

fn event(key: &str, event_type: &str, data: &str) -> PublishEvent {
    PublishEvent { key: key.to_string(), event_type: event_type.to_string(), data: data.to_string() }
}

fn publish(table: &mut Table, stream_id: &str, events: Vec<PublishEvent>, now: Timestamp) -> Result<Vec<PublishedEvent>, Error> {
    run(table, Publish::new(stream_id, events, now))
}

fn poll(table: &mut Table, stream_id: &str, sub: &str, limit: u32) -> Result<PollResponse, Error> {
    run(table, Poll::new(stream_id, sub, limit))
}

fn commit(table: &mut Table, stream_id: &str, sub: &str, cursor: &str) -> Result<(), Error> {
    match CommitOffsets::from_cursor(stream_id, sub, cursor, T0) {
        Ok(operation) => run(table, operation),
        Err(error) => Err(error),
    }
}

fn offset(table: &mut Table, stream_id: &str, sub: &str, partition: u32) -> Result<u64, Error> {
    let client = DynamoClient::new(None);
    let reply = table.execute(client.get_offset(stream_id, sub, partition));
    offset_from_reply(reply, sub)
}

fn rfc3339(at: Timestamp) -> String {
    chrono::DateTime::from_timestamp(at.seconds, at.nanos).unwrap().to_rfc3339()
}

/// The change that the table reports when this row is written.
fn change_of(sk: &str, row: &Row) -> ChangeRecord {
    let mut image: Vec<(String, Attribute)> = vec![
        ("PK".to_string(), Attribute::S("pk".to_string())),
        ("SK".to_string(), Attribute::S(sk.to_string())),
    ];
    if let Row::Event(e) = row {
        image.push(("stream_id".to_string(), Attribute::S(e.stream_id.clone())));
        image.push(("partition".to_string(), Attribute::N(e.partition.to_string())));
        image.push(("sequence".to_string(), Attribute::N(e.sequence.to_string())));
        image.push(("key".to_string(), Attribute::S(e.key.clone())));
        image.push(("event_type".to_string(), Attribute::S(e.event_type.clone())));
        image.push(("data".to_string(), Attribute::Json(e.data.clone())));
        image.push(("timestamp".to_string(), Attribute::S(rfc3339(e.timestamp))));
    }
    ChangeRecord { event_name: "INSERT".to_string(), new_image: image }
}

fn compact(table: &mut Table, record: &ChangeRecord) -> Result<CompactionOutcome, Error> {
    run(table, Compaction::new(record, T0))
}

fn compacted(table: &mut Table, stream_id: &str, key: &str) -> Option<CompactedEvent> {
    let client = DynamoClient::new(None);
    let reply = table.execute(client.get_compacted(stream_id, key));
    compacted_from_reply(reply).unwrap()
}

// Streams

#[test]
fn test_create_stream() {
    let mut table = Table::new();
    let stream = create(&mut table, "test-stream-1", 3, 24).expect("Failed to create stream");
    assert_eq!(stream.stream_id, "test-stream-1");
    assert_eq!(stream.partition_count, 3);
    assert_eq!(stream.retention_hours, 24);
    assert_eq!(stream.created_at, T0);
    // One metadata row and three counters at zero.
    assert_eq!(table.len(), 4);
    for p in 0..3 {
        let row = table.holds(&format!("STREAM#test-stream-1#P{}", p), "COUNTER");
        assert!(matches!(row, Some(Row::Counter(0))));
    }
    assert!(matches!(table.holds("STREAM#test-stream-1", "META"), Some(Row::Stream(_))));
}

#[test]
fn test_create_stream_defaults() {
    let mut table = Table::new();
    let request = CreateStreamRequest::new("test-stream-2".to_string());
    let stream = run(&mut table, DynamoClient::new(None).create_stream(&request))
        .expect("Failed to create stream");
    assert_eq!(stream.stream_id, "test-stream-2");
    assert_eq!(stream.partition_count, 3);
    assert_eq!(stream.retention_hours, 168);
}

#[test]
fn test_create_duplicate_stream_fails() {
    let mut table = Table::new();
    create(&mut table, "dup1", 3, 168).expect("Failed to create stream");
    let before = table.len();
    let result = create(&mut table, "dup1", 5, 24);
    assert!(result.is_err());
    let error = result.unwrap_err();
    assert_eq!(error.status_code(), 409);
    assert!(error.code().contains("already_exists"));
    assert_eq!(error, Error::StreamAlreadyExists("dup1".to_string()));
    // The stream is as it was.
    assert_eq!(table.len(), before);
    assert_eq!(get_stream(&mut table, "dup1").unwrap().partition_count, 3);
}

#[test]
fn create_stream_refuses_bad_shapes() {
    let mut table = Table::new();
    assert_eq!(
        create(&mut table, "", 3, 168),
        Err(Error::Validation("stream_id is required".to_string()))
    );
    assert_eq!(
        create(&mut table, "a", 0, 168),
        Err(Error::Validation("partition_count must be at least 1".to_string()))
    );
    assert_eq!(
        create(&mut table, "a", 1, 0),
        Err(Error::Validation("retention_hours must be at least 1".to_string()))
    );
    assert_eq!(table.requests, 0);
    assert!(create(&mut table, "a", 1, 1).is_ok());
}

#[test]
fn create_stream_reports_a_failing_table() {
    let mut table = Table::new();
    table.fail_at = Some(1);
    assert_eq!(create(&mut table, "s", 2, 1), Err(Error::Database("boom".to_string())));
    assert_eq!(table.len(), 0);
    // A failure between the counters leaves the stream half made.
    let mut table = Table::new();
    table.fail_at = Some(3);
    assert_eq!(create(&mut table, "s", 3, 1), Err(Error::Database("boom".to_string())));
    assert_eq!(table.len(), 2);
}

#[test]
fn test_get_stream() {
    let mut table = Table::new();
    create(&mut table, "test-stream-3", 5, 168).expect("Failed to create stream");
    let stream = get_stream(&mut table, "test-stream-3").expect("Failed to get stream");
    assert_eq!(stream.stream_id, "test-stream-3");
    assert_eq!(stream.partition_count, 5);
}

#[test]
fn test_get_nonexistent_stream_fails() {
    let mut table = Table::new();
    let result = get_stream(&mut table, "nonexistent-stream-12345");
    assert!(result.is_err());
    let error = result.unwrap_err();
    assert_eq!(error.status_code(), 404);
    assert_eq!(error, Error::StreamNotFound("nonexistent-stream-12345".to_string()));
}

#[test]
fn test_list_streams() {
    let mut table = Table::new();
    create(&mut table, "test-stream-4", 3, 168).expect("Failed to create stream");
    create(&mut table, "other", 1, 1).expect("Failed to create stream");
    subscribe(&mut table, "other", "s", StartFrom::Earliest).unwrap();
    let reply = table.execute(DynamoClient::new(None).list_streams());
    let streams = streams_from_reply(reply).expect("Failed to list streams");
    assert!(streams.iter().any(|s| s.stream_id == "test-stream-4"));
    assert_eq!(streams.len(), 2);
}

#[test]
fn test_delete_stream() {
    let mut table = Table::new();
    create(&mut table, "test-stream-5", 3, 168).expect("Failed to create stream");
    subscribe(&mut table, "test-stream-5", "s", StartFrom::Earliest).unwrap();
    publish(&mut table, "test-stream-5", vec![event("k", "t", "1")], T0).unwrap();
    let rows = table.len();
    let response = run(&mut table, DeleteStream::new("test-stream-5"));
    assert_eq!(response, Ok(()));
    // Verify it's gone
    assert!(get_stream(&mut table, "test-stream-5").is_err());
    // The metadata and the three counters are gone; the rest stays behind.
    assert_eq!(table.len(), rows - 4);
    assert!(table.holds("STREAM#test-stream-5", "SUB#s").is_some());
    // Deleting it again finds no stream.
    assert_eq!(
        run(&mut table, DeleteStream::new("test-stream-5")),
        Err(Error::StreamNotFound("test-stream-5".to_string()))
    );
}

// Events

#[test]
fn test_publish_single_event() {
    let mut table = Table::new();
    create(&mut table, "test-stream-6", 3, 168).expect("Failed to create stream");
    let data = r#"{"order_id":"123","customer":"acme","total":99.99}"#;
    let response = publish(&mut table, "test-stream-6", vec![event("key-1", "order.created", data)], at(7))
        .expect("Failed to publish event");
    assert_eq!(response.len(), 1);
    assert_eq!(response[0].stream_id, "test-stream-6");
    assert_eq!(response[0].key, "key-1");
    assert!(response[0].sequence > 0);
    assert_eq!(response[0].sequence, 1);
    assert_eq!(response[0].timestamp, at(7));
    let p = response[0].partition;
    assert!(p < 3);
    let row = table.holds(&format!("STREAM#test-stream-6#P{}", p), "SEQ#00000000000000000001");
    match row {
        Some(Row::Event(e)) => {
            assert_eq!(e.stream_id, "test-stream-6");
            assert_eq!(e.partition, p);
            assert_eq!(e.sequence, 1);
            assert_eq!(e.key, "key-1");
            assert_eq!(e.event_type, "order.created");
            assert_eq!(e.data, data);
            assert_eq!(e.timestamp, at(7));
        }
        other => panic!("no event row: {:?}", other),
    }
}

#[test]
fn test_publish_batch_events() {
    let mut table = Table::new();
    create(&mut table, "test-stream-7", 3, 168).expect("Failed to create stream");
    let events = vec![
        event("key-a", "order.created", r#"{"order_id":"1"}"#),
        event("key-b", "order.created", r#"{"order_id":"2"}"#),
        event("key-c", "order.created", r#"{"order_id":"3"}"#),
    ];
    let response = publish(&mut table, "test-stream-7", events, T0).expect("Failed to publish events");
    assert_eq!(response.len(), 3);
    assert_eq!(response[0].key, "key-a");
    assert_eq!(response[1].key, "key-b");
    assert_eq!(response[2].key, "key-c");
    // All events of one call carry the same timestamp.
    assert!(response.iter().all(|e| e.timestamp == T0));
}

#[test]
fn test_publish_to_nonexistent_stream_fails() {
    let mut table = Table::new();
    let result = publish(&mut table, "nonexistent-stream-12345", vec![event("k", "test.event", "{}")], T0);
    assert!(result.is_err());
    let error = result.unwrap_err();
    assert_eq!(error.status_code(), 404);
    assert_eq!(error, Error::StreamNotFound("nonexistent-stream-12345".to_string()));
}

#[test]
fn publish_refuses_bad_batches_before_asking_the_table() {
    let mut table = Table::new();
    create(&mut table, "s", 1, 1).unwrap();
    let asked = table.requests;
    assert_eq!(
        publish(&mut table, "s", vec![], T0),
        Err(Error::Validation("No events provided".to_string()))
    );
    assert_eq!(
        publish(&mut table, "s", vec![event("k", "t", "1"), event("", "t", "2")], T0),
        Err(Error::InvalidEventKey("event key is required".to_string()))
    );
    assert_eq!(
        publish(&mut table, "s", vec![event("k", "", "1")], T0),
        Err(Error::Validation("event type is required".to_string()))
    );
    assert_eq!(
        publish(&mut table, "s", vec![event("k", "", "1"), event("", "t", "2")], T0),
        Err(Error::Validation("event type is required".to_string()))
    );
    assert_eq!(table.requests, asked);
}

#[test]
fn publish_sequences_are_contiguous_from_one() {
    let mut table = Table::new();
    create(&mut table, "orders1", 1, 1).unwrap();
    let batch: Vec<PublishEvent> = (0..7).map(|i| event(&format!("k{}", i), "t", "null")).collect();
    let told = publish(&mut table, "orders1", batch, T0).unwrap();
    let sequences: Vec<u64> = told.iter().map(|e| e.sequence).collect();
    assert_eq!(sequences, vec![1, 2, 3, 4, 5, 6, 7]);
    assert!(told.iter().all(|e| e.partition == 0));
    // The next batch goes on where the first ended.
    let told = publish(&mut table, "orders1", vec![event("a", "t", "1"), event("b", "t", "2")], T0).unwrap();
    let sequences: Vec<u64> = told.iter().map(|e| e.sequence).collect();
    assert_eq!(sequences, vec![8, 9]);
    assert!(matches!(table.holds("STREAM#orders1#P0", "COUNTER"), Some(Row::Counter(9))));
}

#[test]
fn publish_without_a_counter_is_an_internal_error() {
    let mut table = Table::new();
    create(&mut table, "s", 1, 1).unwrap();
    table.execute(StoreRequest::Delete { pk: "STREAM#s#P0".to_string(), sk: "COUNTER".to_string() });
    let result = publish(&mut table, "s", vec![event("k", "t", "1")], T0);
    assert_eq!(result, Err(Error::Internal("No sequence attribute".to_string())));
    assert_eq!(result.unwrap_err().status_code(), 500);
}

#[test]
fn publish_is_not_atomic() {
    let mut table = Table::new();
    create(&mut table, "s", 1, 1).unwrap();
    // The lookup, then two requests for each event: the fourth request is the
    // counter of the second event.
    table.fail_at = Some(table.requests + 4);
    let result = publish(&mut table, "s", vec![event("a", "t", "1"), event("b", "t", "2")], T0);
    assert_eq!(result, Err(Error::Database("boom".to_string())));
    assert!(table.holds("STREAM#s#P0", "SEQ#00000000000000000001").is_some());
    assert!(table.holds("STREAM#s#P0", "SEQ#00000000000000000002").is_none());
}

#[test]
fn test_same_key_goes_to_same_partition() {
    let mut table = Table::new();
    create(&mut table, "aff1", 10, 168).expect("Failed to create stream");
    let mut partitions = Vec::new();
    for i in 1..=10 {
        let data = format!("{{\"seq\":{}}}", i);
        let response = publish(&mut table, "aff1", vec![event("abc", "test.event", &data)], T0)
            .expect("Failed to publish event");
        partitions.push(response[0].partition);
    }
    let first_partition = partitions[0];
    for p in &partitions {
        assert_eq!(*p, first_partition, "Events with same key should go to same partition");
    }
    // The first four bytes of the digest of "abc" spell 3128432319.
    assert_eq!(first_partition, 9);
    // In its partition the key's events are numbered in order.
    let reply = table.execute(DynamoClient::new(None).read_events("aff1", 9, 0, 100));
    let events = events_from_reply(reply).unwrap();
    let sequences: Vec<u64> = events.iter().map(|e| e.sequence).collect();
    assert_eq!(sequences, (1..=10).collect::<Vec<u64>>());
}

// Subscriptions

#[test]
fn test_create_subscription() {
    let mut table = Table::new();
    create(&mut table, "test-stream-8", 3, 168).expect("Failed to create stream");
    let subscription = subscribe(&mut table, "test-stream-8", "test-sub-1", StartFrom::Earliest)
        .expect("Failed to create subscription");
    assert_eq!(subscription.stream_id, "test-stream-8");
    assert_eq!(subscription.subscription_id, "test-sub-1");
    for p in 0..3 {
        assert_eq!(offset(&mut table, "test-stream-8", "test-sub-1", p), Ok(0));
    }
    let reply = table.execute(DynamoClient::new(None).get_subscription("test-stream-8", "test-sub-1"));
    let found = subscription_from_reply(reply, "test-sub-1").unwrap();
    assert_eq!(found.subscription_id, "test-sub-1");
    assert_eq!(found.created_at, T0);
}

#[test]
fn subscription_errors() {
    let mut table = Table::new();
    assert_eq!(
        subscribe(&mut table, "none", "s1", StartFrom::Latest),
        Err(Error::StreamNotFound("none".to_string()))
    );
    create(&mut table, "s", 2, 1).unwrap();
    assert_eq!(
        subscribe(&mut table, "s", "", StartFrom::Latest),
        Err(Error::InvalidSubscriptionId("subscription_id is required".to_string()))
    );
    subscribe(&mut table, "s", "s1", StartFrom::Latest).unwrap();
    let again = subscribe(&mut table, "s", "s1", StartFrom::Earliest);
    assert_eq!(again, Err(Error::SubscriptionAlreadyExists("s1".to_string())));
    assert_eq!(again.unwrap_err().status_code(), 409);
    assert_eq!(
        offset(&mut table, "s", "unknown", 0),
        Err(Error::SubscriptionNotFound("unknown".to_string()))
    );
    let reply = table.execute(DynamoClient::new(None).get_subscription("s", "unknown"));
    assert_eq!(
        subscription_from_reply(reply, "unknown").map(|s| s.subscription_id),
        Err(Error::SubscriptionNotFound("unknown".to_string()))
    );
}

#[test]
fn subscription_starts_where_it_is_asked_to() {
    let mut table = Table::new();
    create(&mut table, "s", 2, 1).unwrap();
    // Two events in the partition of "abc" (1 of 2), one in that of "x" (0 of 2).
    publish(&mut table, "s", vec![event("abc", "t", "1"), event("abc", "t", "2"), event("x", "t", "3")], T0)
        .unwrap();
    subscribe(&mut table, "s", "early", StartFrom::Earliest).unwrap();
    subscribe(&mut table, "s", "late", StartFrom::Latest).unwrap();
    subscribe(&mut table, "s", "compact", StartFrom::Compacted).unwrap();
    assert_eq!(offset(&mut table, "s", "early", 0), Ok(0));
    assert_eq!(offset(&mut table, "s", "early", 1), Ok(0));
    assert_eq!(offset(&mut table, "s", "compact", 0), Ok(0));
    assert_eq!(offset(&mut table, "s", "compact", 1), Ok(0));
    assert_eq!(offset(&mut table, "s", "late", 0), Ok(1));
    assert_eq!(offset(&mut table, "s", "late", 1), Ok(2));
}

// Poll and commit

#[test]
fn test_poll_empty_stream() {
    let mut table = Table::new();
    create(&mut table, "test-stream-9", 3, 168).expect("Failed to create stream");
    subscribe(&mut table, "test-stream-9", "test-sub-2", StartFrom::Earliest)
        .expect("Failed to create subscription");
    let response = poll(&mut table, "test-stream-9", "test-sub-2", 10).expect("Failed to poll");
    assert!(response.events.is_empty());
    assert!(!response.cursor.is_empty());
    assert_eq!(response.remaining, 0);
    let state = eventledger_core::cursor::decode_cursor(&response.cursor).unwrap();
    assert_eq!(
        state,
        CursorState {
            offsets: vec![
                PartitionOffset { partition: 0, offset: 0 },
                PartitionOffset { partition: 1, offset: 0 },
                PartitionOffset { partition: 2, offset: 0 },
            ]
        }
    );
}

#[test]
fn test_full_publish_poll_commit_cycle() {
    let mut table = Table::new();
    create(&mut table, "orders1", 1, 168).expect("Failed to create stream");
    subscribe(&mut table, "orders1", "s1", StartFrom::Earliest).expect("Failed to create subscription");
    for i in 1..=5 {
        let data = format!("{{\"value\":{}}}", i);
        publish(&mut table, "orders1", vec![event("k1", "counter.incremented", &data)], at(100 + i))
            .expect("Failed to publish event");
    }
    let rows = table.len();
    let poll_response = poll(&mut table, "orders1", "s1", 10).expect("Failed to poll");
    assert_eq!(poll_response.events.len(), 5);
    for (i, event) in poll_response.events.iter().enumerate() {
        assert_eq!(event.key, "k1");
        assert_eq!(event.event_type, "counter.incremented");
        assert_eq!(event.sequence, (i + 1) as u64);
        assert_eq!(event.data, format!("{{\"value\":{}}}", i + 1));
    }
    // Polling changes nothing: a second poll reads the same events.
    assert_eq!(table.len(), rows);
    let again = poll(&mut table, "orders1", "s1", 10).unwrap();
    assert_eq!(again.events.len(), 5);
    assert_eq!(again.cursor, poll_response.cursor);

    let request = CommitRequest { cursor: poll_response.cursor.clone() };
    let operation = DynamoClient::new(None).commit("orders1", "s1", &request).unwrap();
    let commit_response = run(&mut table, operation);
    assert_eq!(commit_response, Ok(()));
    assert!(eventledger_core::CommitResponse::committed().success);
    assert_eq!(offset(&mut table, "orders1", "s1", 0), Ok(5));

    let poll_response2 = poll(&mut table, "orders1", "s1", 10).expect("Failed to poll again");
    assert!(poll_response2.events.is_empty());
}

#[test]
fn latest_start_subscription_sees_only_new_events() {
    let mut table = Table::new();
    create(&mut table, "late1", 3, 168).unwrap();
    let a = publish(&mut table, "late1", vec![event("a", "t", "\"A\"")], at(1)).unwrap();
    assert_eq!(a[0].sequence, 1);
    subscribe(&mut table, "late1", "s1", StartFrom::Latest).unwrap();
    let first = poll(&mut table, "late1", "s1", 100).unwrap();
    assert!(first.events.is_empty());
    let b = publish(&mut table, "late1", vec![event("a", "t", "\"B\"")], at(2)).unwrap();
    assert_eq!(b[0].sequence, 2);
    let second = poll(&mut table, "late1", "s1", 100).unwrap();
    assert_eq!(second.events.len(), 1);
    assert_eq!(second.events[0].data, "\"B\"");
    assert_eq!(second.events[0].sequence, 2);
}

#[test]
fn cursor_is_opaque_but_can_be_rewritten() {
    let mut table = Table::new();
    create(&mut table, "c1", 2, 1).unwrap();
    subscribe(&mut table, "c1", "s1", StartFrom::Earliest).unwrap();
    publish(&mut table, "c1", vec![event("abc", "t", "1"), event("x", "t", "2")], T0).unwrap();
    let response = poll(&mut table, "c1", "s1", 10).unwrap();
    let state = eventledger_core::cursor::decode_cursor(&response.cursor).unwrap();
    assert_eq!(state.offsets.len(), 2);
    assert_eq!(state.offsets[0], PartitionOffset { partition: 0, offset: 1 });
    assert_eq!(state.offsets[1], PartitionOffset { partition: 1, offset: 1 });
    // The same object, encoded again, commits.
    let again = eventledger_core::cursor::encode_cursor(&state).unwrap();
    assert_eq!(commit(&mut table, "c1", "s1", &again), Ok(()));
    assert_eq!(offset(&mut table, "c1", "s1", 0), Ok(1));
    assert_eq!(offset(&mut table, "c1", "s1", 1), Ok(1));
    // A text that is no cursor does not.
    let asked = table.requests;
    assert_eq!(
        commit(&mut table, "c1", "s1", "not a cursor"),
        Err(Error::InvalidCursor("Invalid base64".to_string()))
    );
    assert_eq!(table.requests, asked);
}

#[test]
fn commit_then_poll_returns_nothing_at_or_below_the_cursor() {
    let mut table = Table::new();
    create(&mut table, "replay", 3, 1).unwrap();
    subscribe(&mut table, "replay", "s", StartFrom::Earliest).unwrap();
    let batch: Vec<PublishEvent> = (0..30).map(|i| event(&format!("key-{}", i), "t", "0")).collect();
    publish(&mut table, "replay", batch, T0).unwrap();
    let offsets = vec![
        PartitionOffset { partition: 0, offset: 3 },
        PartitionOffset { partition: 1, offset: 0 },
        PartitionOffset { partition: 2, offset: 100 },
        PartitionOffset { partition: 0, offset: 4 },
    ];
    assert_eq!(run(&mut table, CommitOffsets::new("replay", "s", offsets, T0)), Ok(()));
    let response = poll(&mut table, "replay", "s", 1000).unwrap();
    assert!(!response.events.is_empty());
    for e in &response.events {
        match e.partition {
            0 => assert!(e.sequence > 4),
            1 => assert!(e.sequence > 0),
            _ => panic!("partition {} was read to its end", e.partition),
        }
    }
    // A commit may move an offset backwards, which replays events.
    let back = vec![PartitionOffset { partition: 0, offset: 0 }];
    assert_eq!(run(&mut table, CommitOffsets::new("replay", "s", back, T0)), Ok(()));
    let replay = poll(&mut table, "replay", "s", 1000).unwrap();
    assert!(replay.events.iter().any(|e| e.partition == 0 && e.sequence == 1));
}

#[test]
fn poll_shares_the_limit_among_partitions_and_merges_by_time() {
    let mut table = Table::new();
    create(&mut table, "m", 2, 1).unwrap();
    subscribe(&mut table, "m", "s", StartFrom::Earliest).unwrap();
    // "x" lies in partition 0 of 2, "abc" in partition 1.
    publish(&mut table, "m", vec![event("x", "t", "\"x1\"")], at(30)).unwrap();
    publish(&mut table, "m", vec![event("abc", "t", "\"a1\"")], at(10)).unwrap();
    publish(&mut table, "m", vec![event("x", "t", "\"x2\"")], at(10)).unwrap();
    publish(&mut table, "m", vec![event("abc", "t", "\"a2\"")], at(20)).unwrap();
    publish(&mut table, "m", vec![event("x", "t", "\"x3\"")], at(5)).unwrap();

    let all = poll(&mut table, "m", "s", 10).unwrap();
    let order: Vec<&str> = all.events.iter().map(|e| e.data.as_str()).collect();
    // By timestamp; events of one timestamp stay as they were read:
    // partition 0 before partition 1.
    assert_eq!(order, vec!["\"x3\"", "\"x2\"", "\"a1\"", "\"a2\"", "\"x1\""]);

    // A limit of four reads two events of each partition.
    let four = poll(&mut table, "m", "s", 4).unwrap();
    let order: Vec<&str> = four.events.iter().map(|e| e.data.as_str()).collect();
    assert_eq!(order, vec!["\"x2\"", "\"a1\"", "\"a2\"", "\"x1\""]);
    let state = eventledger_core::cursor::decode_cursor(&four.cursor).unwrap();
    assert_eq!(
        state.offsets,
        vec![PartitionOffset { partition: 0, offset: 2 }, PartitionOffset { partition: 1, offset: 2 }]
    );

    // A limit of one reads one event of each partition and returns one.
    let one = poll(&mut table, "m", "s", 1).unwrap();
    assert_eq!(one.events.len(), 1);
    assert_eq!(one.events[0].data, "\"a1\"");
    // A limit of zero counts as one.
    let zero = poll(&mut table, "m", "s", 0).unwrap();
    assert_eq!(zero.events.len(), 1);
}

#[test]
fn poll_errors() {
    let mut table = Table::new();
    assert_eq!(
        poll(&mut table, "none", "s", 10).map(|r| r.cursor),
        Err(Error::StreamNotFound("none".to_string()))
    );
    create(&mut table, "s", 1, 1).unwrap();
    assert_eq!(
        poll(&mut table, "s", "nobody", 10).map(|r| r.cursor),
        Err(Error::SubscriptionNotFound("nobody".to_string()))
    );
    let request = PollRequest::default();
    let operation = DynamoClient::new(None).poll("s", "nobody", &request);
    assert!(run(&mut table, operation).is_err());
    // A table that fails on the first request.
    table.fail_at = Some(table.requests + 1);
    assert_eq!(
        poll(&mut table, "s", "nobody", 10).map(|r| r.cursor),
        Err(Error::Database("boom".to_string()))
    );
}

// Compaction

#[test]
fn test_compaction_updates_latest_value() {
    let mut table = Table::new();
    create(&mut table, "orders", 1, 168).expect("Failed to create stream");
    for status in ["created", "processing", "shipped", "delivered"] {
        let data = format!("{{\"status\":\"{}\"}}", status);
        publish(&mut table, "orders", vec![event("order-1", &format!("order.{}", status), &data)], at(50))
            .expect("Failed to publish event");
    }
    let feed = table.written.clone();
    for (_, sk, row) in &feed {
        compact(&mut table, &change_of(sk, row)).unwrap();
    }
    let state = compacted(&mut table, "orders", "order-1").unwrap();
    assert_eq!(state.event_type, "order.delivered");
    assert_eq!(state.data, "{\"status\":\"delivered\"}");
    assert_eq!(state.sequence, 4);
    assert_eq!(state.partition, 0);
    assert_eq!(state.timestamp, at(50));
    let reply = table.execute(DynamoClient::new(None).list_compacted("orders"));
    let list = compacted_list_from_reply(reply).unwrap();
    assert_eq!(list.len(), 1);
    assert_eq!(list[0].key, "order-1");
}

#[test]
fn compactor_is_monotone_under_replay() {
    let mut table = Table::new();
    create(&mut table, "c", 1, 1).unwrap();
    publish(&mut table, "c", vec![event("x", "t", "{\"v\":1}"), event("x", "t", "{\"v\":2}")], T0).unwrap();
    let events: Vec<(String, String, Row)> =
        table.written.iter().filter(|(_, sk, _)| sk.starts_with("SEQ#")).cloned().collect();
    assert_eq!(events.len(), 2);
    let one = change_of(&events[0].1, &events[0].2);
    let two = change_of(&events[1].1, &events[1].2);
    assert_eq!(compact(&mut table, &two), Ok(CompactionOutcome::Updated));
    assert_eq!(compact(&mut table, &one), Ok(CompactionOutcome::Stale));
    assert_eq!(compact(&mut table, &two), Ok(CompactionOutcome::Stale));
    let state = compacted(&mut table, "c", "x").unwrap();
    assert_eq!(state.sequence, 2);
    assert_eq!(state.data, "{\"v\":2}");
}

#[test]
fn compaction_is_idempotent() {
    let mut table = Table::new();
    let record = ChangeRecord {
        event_name: "MODIFY".to_string(),
        new_image: vec![
            ("SK".to_string(), Attribute::S("SEQ#00000000000000000007".to_string())),
            ("stream_id".to_string(), Attribute::S("s".to_string())),
            ("key".to_string(), Attribute::S("k".to_string())),
            ("event_type".to_string(), Attribute::S("t".to_string())),
            ("sequence".to_string(), Attribute::N("7".to_string())),
            ("partition".to_string(), Attribute::N("2".to_string())),
        ],
    };
    assert_eq!(run(&mut table, Compaction::new(&record, at(1))), Ok(CompactionOutcome::Updated));
    let once = compacted(&mut table, "s", "k").unwrap();
    for i in 2..5 {
        assert_eq!(run(&mut table, Compaction::new(&record, at(i))), Ok(CompactionOutcome::Stale));
        let state = compacted(&mut table, "s", "k").unwrap();
        assert_eq!(state.sequence, once.sequence);
        assert_eq!(state.timestamp, once.timestamp);
        assert_eq!(state.data, once.data);
    }
    assert_eq!(once.sequence, 7);
    assert_eq!(once.partition, 2);
    // Without data the payload is null; without a timestamp it is the time of compaction.
    assert_eq!(once.data, "null");
    assert_eq!(once.timestamp, at(1));
    assert_eq!(table.len(), 1);
    let operation = DynamoClient::new(None).compact(&record);
    assert_eq!(run(&mut table, operation), Ok(CompactionOutcome::Stale));
}

fn image(entries: Vec<(&str, Attribute)>) -> Vec<(String, Attribute)> {
    entries.into_iter().map(|(n, a)| (n.to_string(), a)).collect()
}

fn s(text: &str) -> Attribute {
    Attribute::S(text.to_string())
}

fn n(text: &str) -> Attribute {
    Attribute::N(text.to_string())
}

fn full_image() -> Vec<(&'static str, Attribute)> {
    vec![
        ("SK", s("SEQ#00000000000000000003")),
        ("stream_id", s("s")),
        ("key", s("k")),
        ("event_type", s("t")),
        ("sequence", n("3")),
        ("partition", n("1")),
        ("data", Attribute::Json("{\"v\":[1,2]}".to_string())),
        ("timestamp", s("2024-01-02T03:04:05.5+00:00")),
    ]
}

fn plan(event_name: &str, entries: Vec<(&str, Attribute)>) -> Result<Option<CompactedEvent>, Error> {
    let record = ChangeRecord { event_name: event_name.to_string(), new_image: image(entries) };
    eventledger_core::compactor::plan_compaction(&record, T0)
}

fn without(name: &str) -> Vec<(&'static str, Attribute)> {
    full_image().into_iter().filter(|(n, _)| *n != name).collect()
}

fn replaced(name: &'static str, value: Attribute) -> Vec<(&'static str, Attribute)> {
    let mut entries = without(name);
    entries.push((name, value));
    entries
}

#[test]
fn compaction_plan_reads_the_image() {
    let state = plan("INSERT", full_image()).unwrap().unwrap();
    assert_eq!(state.stream_id, "s");
    assert_eq!(state.key, "k");
    assert_eq!(state.event_type, "t");
    assert_eq!(state.sequence, 3);
    assert_eq!(state.partition, 1);
    assert_eq!(state.data, "{\"v\":[1,2]}");
    assert_eq!(state.timestamp, Timestamp { seconds: 1704164645, nanos: 500_000_000 });

    // A timestamp in another zone names the same instant.
    let zoned = plan("MODIFY", replaced("timestamp", s("2024-01-02T05:04:05+02:00"))).unwrap().unwrap();
    assert_eq!(zoned.timestamp, at(1704164645));
    // A timestamp that cannot be read gives way to the time of compaction.
    let unread = plan("INSERT", replaced("timestamp", s("yesterday"))).unwrap().unwrap();
    assert_eq!(unread.timestamp, T0);
    let numeric = plan("INSERT", replaced("timestamp", n("5"))).unwrap().unwrap();
    assert_eq!(numeric.timestamp, T0);

    // The payload is kept whatever its type: a string becomes a JSON string,
    // a number stands as it is written, other values are given in JSON.
    let plain = plan("INSERT", replaced("data", s("hello"))).unwrap().unwrap();
    assert_eq!(plain.data, "\"hello\"");
    let braces = plan("INSERT", replaced("data", s("{\"v\":1}"))).unwrap().unwrap();
    assert_eq!(braces.data, r#""{\"v\":1}""#);
    let lines = plan("INSERT", replaced("data", s("a\nb\\"))).unwrap().unwrap();
    assert_eq!(lines.data, r#""a\nb\\""#);
    let object =
        plan("INSERT", replaced("data", Attribute::Json("{\"v\":2}".to_string()))).unwrap().unwrap();
    assert_eq!(object.data, "{\"v\":2}");
    let number = plan("INSERT", replaced("data", n("5"))).unwrap().unwrap();
    assert_eq!(number.data, "5");
    let fraction = plan("INSERT", replaced("data", n("-1.5e3"))).unwrap().unwrap();
    assert_eq!(fraction.data, "-1.5e3");
    let no_number = plan("INSERT", replaced("data", n("007"))).unwrap().unwrap();
    assert_eq!(no_number.data, "null");
    let none = plan("INSERT", without("data")).unwrap().unwrap();
    assert_eq!(none.data, "null");
}

#[test]
fn compaction_plan_skips_what_is_no_event() {
    assert_eq!(plan("REMOVE", full_image()).map(|p| p.is_none()), Ok(true));
    assert_eq!(plan("insert", full_image()).map(|p| p.is_none()), Ok(true));
    assert_eq!(plan("INSERT", vec![]).map(|p| p.is_none()), Ok(true));
    assert_eq!(plan("INSERT", replaced("SK", s("COUNTER"))).map(|p| p.is_none()), Ok(true));
    assert_eq!(plan("INSERT", replaced("SK", s("META"))).map(|p| p.is_none()), Ok(true));
    assert_eq!(plan("INSERT", replaced("SK", n("1"))).map(|p| p.is_none()), Ok(true));
    assert_eq!(plan("INSERT", without("SK")).map(|p| p.is_none()), Ok(true));
    let mut table = Table::new();
    let record = ChangeRecord { event_name: "REMOVE".to_string(), new_image: image(full_image()) };
    assert_eq!(compact(&mut table, &record), Ok(CompactionOutcome::Skipped));
    assert_eq!(table.requests, 0);
}

#[test]
fn compaction_plan_refuses_incomplete_events() {
    let missing = |name: &str| plan("INSERT", without(name)).map(|p| p.is_some());
    assert_eq!(missing("stream_id"), Err(Error::Validation("Missing stream_id".to_string())));
    assert_eq!(missing("key"), Err(Error::Validation("Missing key".to_string())));
    assert_eq!(missing("event_type"), Err(Error::Validation("Missing event_type".to_string())));
    assert_eq!(missing("sequence"), Err(Error::Validation("Missing or invalid sequence".to_string())));
    assert_eq!(missing("partition"), Err(Error::Validation("Missing or invalid partition".to_string())));
    let bad = |name: &'static str, value: Attribute| plan("INSERT", replaced(name, value)).map(|p| p.is_some());
    assert_eq!(bad("stream_id", n("1")), Err(Error::Validation("Missing stream_id".to_string())));
    assert_eq!(bad("sequence", s("3")), Err(Error::Validation("Missing or invalid sequence".to_string())));
    assert_eq!(bad("sequence", n("-3")), Err(Error::Validation("Missing or invalid sequence".to_string())));
    assert_eq!(
        bad("sequence", n("18446744073709551616")),
        Err(Error::Validation("Missing or invalid sequence".to_string()))
    );
    assert_eq!(bad("sequence", n("18446744073709551615")), Ok(true));
    assert_eq!(
        bad("partition", n("4294967296")),
        Err(Error::Validation("Missing or invalid partition".to_string()))
    );
    assert_eq!(bad("partition", n("1.5")), Err(Error::Validation("Missing or invalid partition".to_string())));
    // The first missing field is named.
    let record: Vec<(&str, Attribute)> = vec![("SK", s("SEQ#1"))];
    assert_eq!(
        plan("INSERT", record).map(|p| p.is_some()),
        Err(Error::Validation("Missing stream_id".to_string()))
    );
    // A malformed record asks nothing of the table.
    let mut table = Table::new();
    let record = ChangeRecord { event_name: "INSERT".to_string(), new_image: image(without("key")) };
    assert_eq!(compact(&mut table, &record), Err(Error::Validation("Missing key".to_string())));
    assert_eq!(table.requests, 0);
}

#[test]
fn compacted_state_is_written_and_read() {
    let mut table = Table::new();
    let state = CompactedEvent {
        stream_id: "s".to_string(),
        key: "k".to_string(),
        event_type: "t".to_string(),
        data: "1".to_string(),
        sequence: 9,
        partition: 0,
        timestamp: T0,
    };
    let client = DynamoClient::with_table_name("ledger".to_string());
    assert_eq!(client.table_name(), "ledger");
    assert_eq!(DynamoClient::new(None).table_name(), "eventledger");
    assert_eq!(DynamoClient::new(Some("other".to_string())).table_name(), "other");
    let reply = table.execute(client.put_compacted(&state));
    assert_eq!(written_from_reply(reply), Ok(()));
    assert!(matches!(table.holds("STREAM#s#COMPACT", "KEY#k"), Some(Row::Compacted(_))));
    assert_eq!(compacted(&mut table, "s", "k").unwrap().sequence, 9);
    assert!(compacted(&mut table, "s", "other").is_none());
    // A failing write of compacted state is a database error.
    table.fail_at = Some(table.requests + 2);
    let record = ChangeRecord {
        event_name: "INSERT".to_string(),
        new_image: image(replaced("sequence", n("10"))),
    };
    assert_eq!(compact(&mut table, &record), Err(Error::Database("boom".to_string())));
}

#[test]
fn replies_of_the_wrong_kind_are_internal_errors() {
    let unexpected = Error::Internal("unexpected reply".to_string());
    assert_eq!(written_from_reply(StoreReply::Item(None)), Err(unexpected.clone()));
    assert_eq!(stream_from_reply(StoreReply::Done, "s").map(|s| s.stream_id), Err(unexpected.clone()));
    assert_eq!(offset_from_reply(StoreReply::Rows(vec![]), "s"), Err(unexpected.clone()));
    assert_eq!(
        stream_from_reply(StoreReply::Item(Some(Row::Unreadable("bad row".to_string()))), "s")
            .map(|s| s.stream_id),
        Err(Error::DynamoSerialization("bad row".to_string()))
    );
    assert_eq!(
        stream_from_reply(StoreReply::Item(Some(Row::Counter(1))), "s").map(|s| s.stream_id),
        Err(Error::DynamoSerialization("not a stream".to_string()))
    );
    assert_eq!(
        offset_from_reply(StoreReply::Item(Some(Row::Counter(1))), "s"),
        Err(Error::Internal("Invalid offset type".to_string()))
    );
    let e = Event {
        stream_id: "s".to_string(),
        partition: 0,
        sequence: 1,
        key: "k".to_string(),
        event_type: "t".to_string(),
        data: "1".to_string(),
        timestamp: T0,
    };
    let rows = vec![Row::Counter(3), Row::Event(e.clone()), Row::Unreadable("x".to_string()), Row::Event(e)];
    assert_eq!(events_from_reply(StoreReply::Rows(rows)).map(|v| v.len()), Ok(2));
    // An operation that is told something before it has asked ends with an error.
    let operation = DeleteStream::new("s");
    let (_, step) = operation.step(Some(StoreReply::Done));
    assert!(matches!(step, Step::Done(Err(Error::Internal(_)))));
}

#[test]
fn operations_are_driven_against_the_table_in_memory() {
    let mut table = MemoryTable::new();
    let request = CreateStreamRequest { stream_id: "d".to_string(), partition_count: 2, retention_hours: 1 };
    let stream = drive(&mut table, CreateStream::new(&request, T0)).unwrap();
    assert_eq!(stream.partition_count, 2);
    assert_eq!(table.len(), 3);
    assert_eq!(
        drive(&mut table, CreateStream::new(&request, T0)),
        Err(Error::StreamAlreadyExists("d".to_string()))
    );
    drive(&mut table, CreateSubscription::new("d", "s", StartFrom::Earliest, T0)).unwrap();
    let told = drive(
        &mut table,
        Publish::new("d", vec![event("abc", "t", "1"), event("x", "t", "2"), event("abc", "t", "3")], T0),
    )
    .unwrap();
    let places: Vec<(u32, u64)> = told.iter().map(|e| (e.partition, e.sequence)).collect();
    assert_eq!(places, vec![(1, 1), (0, 1), (1, 2)]);
    let response = drive(&mut table, Poll::new("d", "s", 10)).unwrap();
    assert_eq!(response.events.len(), 3);
    let operation = CommitOffsets::from_cursor("d", "s", &response.cursor, T0).unwrap();
    assert_eq!(drive(&mut table, operation), Ok(()));
    assert!(drive(&mut table, Poll::new("d", "s", 10)).unwrap().events.is_empty());
    assert_eq!(drive(&mut table, DeleteStream::new("d")), Ok(()));
    assert_eq!(
        drive(&mut table, Poll::new("d", "s", 10)).map(|r| r.cursor),
        Err(Error::StreamNotFound("d".to_string()))
    );
}

#[test]
fn table_in_memory_answers_queries_in_the_order_of_sort_keys() {
    let mut table = MemoryTable::new();
    for sk in ["b", "a", "c", "ab", "", "é"] {
        table.put("p".to_string(), sk.to_string(), Row::Unreadable(sk.to_string()));
    }
    table.put("q".to_string(), "aa".to_string(), Row::Counter(1));
    table.put("p".to_string(), "a".to_string(), Row::Unreadable("a again".to_string()));
    assert_eq!(table.len(), 7);
    let names = |reply: StoreReply| -> Vec<String> {
        match reply {
            StoreReply::Rows(rows) => rows
                .into_iter()
                .map(|r| match r {
                    Row::Unreadable(m) => m,
                    other => format!("{:?}", other),
                })
                .collect(),
            other => panic!("{:?}", other),
        }
    };
    let after = |table: &mut MemoryTable, after: &str, limit: u32| {
        table.answer(StoreRequest::QueryAfter { pk: "p".to_string(), after: after.to_string(), limit })
    };
    assert_eq!(names(after(&mut table, "", 10)), vec!["a again", "ab", "b", "c", "é"]);
    assert_eq!(names(after(&mut table, "a", 2)), vec!["ab", "b"]);
    assert_eq!(names(after(&mut table, "c", 10)), vec!["é"]);
    assert_eq!(names(after(&mut table, "é", 10)), Vec::<String>::new());
    assert_eq!(names(after(&mut table, "", 0)), Vec::<String>::new());
    let prefixed =
        table.answer(StoreRequest::QueryPrefix { pk: "p".to_string(), prefix: "a".to_string() });
    let mut found = names(prefixed);
    found.sort();
    assert_eq!(found, vec!["a again", "ab"]);
    assert_eq!(table.get("p", "b"), Some(Row::Unreadable("b".to_string())));
    assert_eq!(table.get("p", "zz"), None);
    assert_eq!(table.answer(StoreRequest::Delete { pk: "p".to_string(), sk: "b".to_string() }), StoreReply::Done);
    assert_eq!(table.get("p", "b"), None);
    assert_eq!(
        table.answer(StoreRequest::Increment { pk: "q".to_string(), sk: "aa".to_string() }),
        StoreReply::Item(Some(Row::Counter(2)))
    );
    assert_eq!(
        table.answer(StoreRequest::Increment { pk: "q".to_string(), sk: "none".to_string() }),
        StoreReply::Item(None)
    );
    assert_eq!(
        table.answer(StoreRequest::PutIfAbsent { pk: "q".to_string(), sk: "aa".to_string(), row: Row::Counter(9) }),
        StoreReply::ConditionFailed
    );
    assert_eq!(table.get("q", "aa"), Some(Row::Counter(2)));
}

// What is not there, and what cannot be read

#[test]
fn commit_needs_the_stream_and_the_subscription() {
    let mut table = Table::new();
    let offsets = vec![PartitionOffset { partition: 0, offset: 1 }];
    assert_eq!(
        run(&mut table, CommitOffsets::new("none", "s1", offsets.clone(), T0)),
        Err(Error::StreamNotFound("none".to_string()))
    );
    assert_eq!(table.len(), 0);
    create(&mut table, "orders", 2, 1).unwrap();
    let rows = table.len();
    let unknown = run(&mut table, CommitOffsets::new("orders", "nobody", offsets.clone(), T0));
    assert_eq!(unknown, Err(Error::SubscriptionNotFound("nobody".to_string())));
    let error = unknown.unwrap_err();
    assert_eq!(error.status_code(), 404);
    assert_eq!(error.code(), "subscription_not_found");
    // Nothing was written for the unknown subscription.
    assert_eq!(table.len(), rows);
    assert!(table.holds("STREAM#orders#SUB#nobody", "OFFSET#P0").is_none());
    // The same through a cursor.
    let cursor =
        eventledger_core::cursor::encode_cursor(&CursorState { offsets: offsets.clone() }).unwrap();
    assert_eq!(
        commit(&mut table, "orders", "nobody", &cursor),
        Err(Error::SubscriptionNotFound("nobody".to_string()))
    );
    assert_eq!(table.len(), rows);
    // Once the subscription is there, the commit is taken.
    subscribe(&mut table, "orders", "nobody", StartFrom::Earliest).unwrap();
    assert_eq!(commit(&mut table, "orders", "nobody", &cursor), Ok(()));
    assert_eq!(offset(&mut table, "orders", "nobody", 0), Ok(1));
    // An empty cursor writes nothing, and still needs the subscription.
    assert_eq!(run(&mut table, CommitOffsets::new("orders", "nobody", vec![], T0)), Ok(()));
    assert_eq!(
        run(&mut table, CommitOffsets::new("orders", "other", vec![], T0)),
        Err(Error::SubscriptionNotFound("other".to_string()))
    );
}

#[test]
fn commit_refuses_partitions_that_the_stream_does_not_have() {
    let mut table = Table::new();
    create(&mut table, "orders", 2, 1).unwrap();
    subscribe(&mut table, "orders", "s1", StartFrom::Earliest).unwrap();
    let rows = table.len();
    let offsets = vec![
        PartitionOffset { partition: 0, offset: 5 },
        PartitionOffset { partition: 2, offset: 1 },
    ];
    let refused = run(&mut table, CommitOffsets::new("orders", "s1", offsets, T0));
    assert_eq!(refused, Err(Error::InvalidCursor("partition out of range".to_string())));
    assert_eq!(refused.unwrap_err().status_code(), 400);
    // No offset was written, not even the one in range.
    assert_eq!(table.len(), rows);
    assert_eq!(offset(&mut table, "orders", "s1", 0), Ok(0));
    let widest = vec![PartitionOffset { partition: 1, offset: 9 }];
    assert_eq!(run(&mut table, CommitOffsets::new("orders", "s1", widest, T0)), Ok(()));
    assert_eq!(offset(&mut table, "orders", "s1", 1), Ok(9));
}

#[test]
fn commit_reports_a_failing_table() {
    let mut table = Table::new();
    create(&mut table, "orders", 2, 1).unwrap();
    subscribe(&mut table, "orders", "s1", StartFrom::Earliest).unwrap();
    let offsets =
        vec![PartitionOffset { partition: 0, offset: 5 }, PartitionOffset { partition: 1, offset: 6 }];
    for failing in 1..=4 {
        let mut table = Table::new();
        create(&mut table, "orders", 2, 1).unwrap();
        subscribe(&mut table, "orders", "s1", StartFrom::Earliest).unwrap();
        table.fail_at = Some(table.requests + failing);
        let result = run(&mut table, CommitOffsets::new("orders", "s1", offsets.clone(), T0));
        assert_eq!(result, Err(Error::Database("boom".to_string())), "request {}", failing);
        // Commits are not one transaction: what was written before stays.
        let first = if failing == 4 { 5 } else { 0 };
        assert_eq!(offset(&mut table, "orders", "s1", 0), Ok(first));
        assert_eq!(offset(&mut table, "orders", "s1", 1), Ok(0));
    }
    assert_eq!(run(&mut table, CommitOffsets::new("orders", "s1", offsets, T0)), Ok(()));
}

#[test]
fn poll_ends_with_the_error_of_a_read_that_fails() {
    let mut table = Table::new();
    create(&mut table, "orders", 2, 1).unwrap();
    subscribe(&mut table, "orders", "s1", StartFrom::Earliest).unwrap();
    publish(&mut table, "orders", vec![event("abc", "t", "1"), event("x", "t", "2")], T0).unwrap();
    // Two lookups, then an offset and a query for each partition.
    for failing in 1..=6 {
        table.fail_at = Some(table.requests + failing);
        assert_eq!(
            poll(&mut table, "orders", "s1", 10).map(|r| r.events.len()),
            Err(Error::Database("boom".to_string())),
            "request {}",
            failing
        );
    }
    table.fail_at = None;
    assert_eq!(poll(&mut table, "orders", "s1", 10).map(|r| r.events.len()), Ok(2));
    // A row that is no offset where an offset is looked for.
    table.execute(StoreRequest::Put {
        pk: "STREAM#orders#SUB#s1".to_string(),
        sk: "OFFSET#P1".to_string(),
        row: Row::Counter(3),
    });
    let mistyped = poll(&mut table, "orders", "s1", 10).map(|r| r.events.len());
    assert_eq!(mistyped, Err(Error::Internal("Invalid offset type".to_string())));
    assert_eq!(mistyped.unwrap_err().status_code(), 500);
    // A partition without a committed offset is read from its start.
    table.execute(StoreRequest::Delete {
        pk: "STREAM#orders#SUB#s1".to_string(),
        sk: "OFFSET#P1".to_string(),
    });
    assert_eq!(poll(&mut table, "orders", "s1", 10).map(|r| r.events.len()), Ok(2));
}

#[test]
fn latest_start_ends_with_the_error_of_a_counter_that_cannot_be_read() {
    let mut table = Table::new();
    create(&mut table, "orders", 2, 1).unwrap();
    // The lookup, the registration, then the counter of the first partition.
    table.fail_at = Some(table.requests + 3);
    assert_eq!(
        subscribe(&mut table, "orders", "s1", StartFrom::Latest),
        Err(Error::Database("boom".to_string()))
    );
    assert!(table.holds("STREAM#orders#SUB#s1", "OFFSET#P0").is_none());
    // A row that is no counter where the counter is looked for.
    table.fail_at = None;
    table.execute(StoreRequest::Put {
        pk: "STREAM#orders#P1".to_string(),
        sk: "COUNTER".to_string(),
        row: Row::Unreadable("bad".to_string()),
    });
    assert_eq!(
        subscribe(&mut table, "orders", "s2", StartFrom::Latest),
        Err(Error::Internal("Invalid sequence type".to_string()))
    );
    // A partition without a counter has given out nothing.
    table.execute(StoreRequest::Delete {
        pk: "STREAM#orders#P1".to_string(),
        sk: "COUNTER".to_string(),
    });
    assert!(subscribe(&mut table, "orders", "s3", StartFrom::Latest).is_ok());
    assert_eq!(offset(&mut table, "orders", "s3", 1), Ok(0));
}

#[test]
fn compaction_writes_nothing_where_the_state_cannot_be_read() {
    let mut table = Table::new();
    let record = |sequence: &str| ChangeRecord {
        event_name: "INSERT".to_string(),
        new_image: image(replaced("sequence", n(sequence))),
    };
    assert_eq!(compact(&mut table, &record("9")), Ok(CompactionOutcome::Updated));
    // The read of the state fails: the older change must not be written.
    table.fail_at = Some(table.requests + 1);
    assert_eq!(compact(&mut table, &record("4")), Err(Error::Database("boom".to_string())));
    assert_eq!(table.requests, 3);
    assert_eq!(compacted(&mut table, "s", "k").unwrap().sequence, 9);
    // A row that is no compacted state under the key.
    table.execute(StoreRequest::Put {
        pk: "STREAM#s#COMPACT".to_string(),
        sk: "KEY#k".to_string(),
        row: Row::Unreadable("bad item".to_string()),
    });
    assert_eq!(
        compact(&mut table, &record("10")),
        Err(Error::DynamoSerialization("bad item".to_string()))
    );
    assert!(matches!(table.holds("STREAM#s#COMPACT", "KEY#k"), Some(Row::Unreadable(_))));
}
