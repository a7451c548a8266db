//! The operations of the log on its table, by name.
//!
//! A [`DynamoClient`] knows the name of the table and starts operations on
//! it. An operation that needs one request is that request, with a function
//! of [`crate::replies`] to read the answer; one that needs several is a
//! machine that hands them out in turn. Where an operation stamps rows with
//! the present time, the client reads the clock once, at the start.

use crate::compactor::{
    get_compacted_request, list_compacted_request, put_compacted_request, ChangeRecord, Compaction,
    CompactionModel,
};
use crate::cursor::decoded_cursor;
use crate::errors::Error;
use crate::keys::{
    compacted_pk, compacted_sk, meta_sk, offset_sk, offsets_pk, partition_pk, sequence_sk,
    stream_pk, subscription_sk,
};
use crate::models::{
    CommitRequest, CompactedEvent, CreateStreamRequest, CreateSubscriptionRequest, PartitionOffset,
    PollRequest, PublishEvent, StreamView, Timestamp,
};
use crate::poll::{events_request, Poll, PollModel};
use crate::publisher::{Publish, PublishModel};
use crate::registry::{
    stream_request, CreateStream, CreateStreamModel, DeleteStream, DeleteStreamModel,
};
use crate::store::{RequestView, RowView, StoreRequest};
use crate::subscriptions::{
    offset_request, subscription_request, CommitOffsets, CommitOffsetsModel, CreateSubscription,
    CreateSubscriptionModel,
};
use vstd::prelude::*;
use vstd::string::StringExecFns;

verus! {

/// The name of the table where none is configured.
pub open spec fn default_table_name() -> Seq<char> {
    "eventledger"@
}

/// The name of the environment variable that names the table.
pub fn table_name_variable() -> (name: &'static str)
    ensures
        name@ == "EVENTLEDGER_TABLE"@,
{
    "EVENTLEDGER_TABLE"
}

/// Starts the operations of the log on one table.
#[derive(Debug)]
pub struct DynamoClient {
    table_name: String,
}

impl DynamoClient {
    /// The name of the table.
    pub closed spec fn table(&self) -> Seq<char> {
        self.table_name@
    }

    /// A client for the configured table, or for the table `eventledger`
    /// where none is configured.
    pub fn new(configured: Option<String>) -> (client: Self)
        ensures
            client.table() == match configured {
                Some(name) => name@,
                None => default_table_name(),
            },
    {
        match configured {
            Some(table_name) => DynamoClient { table_name },
            None => DynamoClient { table_name: String::from_str("eventledger") },
        }
    }

    /// A client for the table of the given name.
    pub fn with_table_name(table_name: String) -> (client: Self)
        ensures
            client.table() == table_name@,
    {
        DynamoClient { table_name }
    }

    /// The name of the table.
    pub fn table_name(&self) -> (name: &String)
        ensures
            name@ == self.table(),
    {
        &self.table_name
    }

    /// Starts the creation of a stream, stamped with the present time.
    pub fn create_stream(&self, request: &CreateStreamRequest) -> (operation: CreateStream)
        ensures
            exists|now: Timestamp|
                operation@ == CreateStreamModel::start(
                    StreamView {
                        stream_id: request.stream_id@,
                        partition_count: request.partition_count,
                        retention_hours: request.retention_hours,
                        created_at: now,
                    },
                ),
    {
        let now = Timestamp::now();
        let operation = CreateStream::new(request, now);
        assert(operation@ == CreateStreamModel::start(
            StreamView {
                stream_id: request.stream_id@,
                partition_count: request.partition_count,
                retention_hours: request.retention_hours,
                created_at: now,
            },
        ));
        operation
    }

    /// The request that reads a stream; `stream_from_reply` reads the answer.
    pub fn get_stream(&self, stream_id: &str) -> (request: StoreRequest)
        ensures
            request@ == (RequestView::Get { pk: stream_pk(stream_id@), sk: meta_sk() }),
    {
        stream_request(stream_id)
    }

    /// The request that reads all streams; `streams_from_reply` reads the
    /// answer.
    pub fn list_streams(&self) -> (request: StoreRequest)
        ensures
            request@ == RequestView::ScanStreams,
    {
        StoreRequest::ScanStreams
    }

    /// Starts the deletion of a stream.
    pub fn delete_stream(&self, stream_id: &str) -> (operation: DeleteStream)
        ensures
            operation@ == DeleteStreamModel::start(stream_id@),
    {
        DeleteStream::new(stream_id)
    }

    /// Starts the publishing of events, stamped with the present time.
    pub fn publish_events(&self, stream_id: &str, events: Vec<PublishEvent>) -> (operation: Publish)
        ensures
            exists|now: Timestamp|
                operation@ == PublishModel::start(stream_id@, events.deep_view(), now),
    {
        let now = Timestamp::now();
        let operation = Publish::new(stream_id, events, now);
        assert(operation@ == PublishModel::start(stream_id@, events.deep_view(), now));
        operation
    }

    /// The request that reads up to `limit` events of a partition after
    /// `from_offset`; `events_from_reply` reads the answer.
    pub fn read_events(
        &self,
        stream_id: &str,
        partition: u32,
        from_offset: u64,
        limit: u32,
    ) -> (request: StoreRequest)
        ensures
            request@ == (RequestView::QueryAfter {
                pk: partition_pk(stream_id@, partition),
                after: sequence_sk(from_offset),
                limit,
            }),
    {
        events_request(stream_id, partition, from_offset, limit)
    }

    /// Starts the creation of a subscription, stamped with the present time.
    pub fn create_subscription(
        &self,
        stream_id: &str,
        request: &CreateSubscriptionRequest,
    ) -> (operation: CreateSubscription)
        ensures
            exists|now: Timestamp|
                operation@ == CreateSubscriptionModel::start(
                    stream_id@,
                    request.subscription_id@,
                    request.start_from,
                    now,
                ),
    {
        let now = Timestamp::now();
        let operation = CreateSubscription::new(
            stream_id,
            request.subscription_id.as_str(),
            request.start_from,
            now,
        );
        assert(operation@ == CreateSubscriptionModel::start(
            stream_id@,
            request.subscription_id@,
            request.start_from,
            now,
        ));
        operation
    }

    /// The request that reads a subscription's committed offset in a
    /// partition; `offset_from_reply` reads the answer.
    pub fn get_offset(
        &self,
        stream_id: &str,
        subscription_id: &str,
        partition: u32,
    ) -> (request: StoreRequest)
        ensures
            request@ == (RequestView::Get {
                pk: offsets_pk(stream_id@, subscription_id@),
                sk: offset_sk(partition),
            }),
    {
        offset_request(stream_id, subscription_id, partition)
    }

    /// Starts the committing of offsets, stamped with the present time. The
    /// operation writes nothing unless the stream and the subscription are
    /// there and the stream has every partition that the offsets name.
    pub fn commit_offsets(
        &self,
        stream_id: &str,
        subscription_id: &str,
        offsets: Vec<PartitionOffset>,
    ) -> (operation: CommitOffsets)
        ensures
            exists|now: Timestamp|
                operation@ == CommitOffsetsModel::start(
                    stream_id@,
                    subscription_id@,
                    offsets@,
                    now,
                ),
    {
        let now = Timestamp::now();
        let operation = CommitOffsets::new(stream_id, subscription_id, offsets, now);
        assert(operation@ == CommitOffsetsModel::start(
            stream_id@,
            subscription_id@,
            offsets@,
            now,
        ));
        operation
    }

    /// The request that reads a subscription; `subscription_from_reply`
    /// reads the answer.
    pub fn get_subscription(&self, stream_id: &str, subscription_id: &str) -> (request:
        StoreRequest)
        ensures
            request@ == (RequestView::Get {
                pk: stream_pk(stream_id@),
                sk: subscription_sk(subscription_id@),
            }),
    {
        subscription_request(stream_id, subscription_id)
    }

    /// The request that stores the compacted state of a key;
    /// `written_from_reply` reads the answer.
    pub fn put_compacted(&self, event: &CompactedEvent) -> (request: StoreRequest)
        ensures
            request@ == (RequestView::Put {
                pk: compacted_pk(event.stream_id@),
                sk: compacted_sk(event.key@),
                row: RowView::Compacted(event@),
            }),
    {
        put_compacted_request(event)
    }

    /// The request that reads the compacted state of a key;
    /// `compacted_from_reply` reads the answer.
    pub fn get_compacted(&self, stream_id: &str, key: &str) -> (request: StoreRequest)
        ensures
            request@ == (RequestView::Get {
                pk: compacted_pk(stream_id@),
                sk: compacted_sk(key@),
            }),
    {
        get_compacted_request(stream_id, key)
    }

    /// The request that reads the compacted state of all keys of a stream;
    /// `compacted_list_from_reply` reads the answer.
    pub fn list_compacted(&self, stream_id: &str) -> (request: StoreRequest)
        ensures
            request@ == (RequestView::QueryPrefix {
                pk: compacted_pk(stream_id@),
                prefix: "KEY#"@,
            }),
    {
        list_compacted_request(stream_id)
    }

    /// Starts a poll of a subscription.
    pub fn poll(
        &self,
        stream_id: &str,
        subscription_id: &str,
        request: &PollRequest,
    ) -> (operation: Poll)
        ensures
            operation@ == PollModel::start(stream_id@, subscription_id@, request.limit),
    {
        Poll::new(stream_id, subscription_id, request.limit)
    }

    /// Starts the committing of a cursor, stamped with the present time. A
    /// text that is no cursor gives `InvalidCursor`, and nothing is asked of
    /// the table. The operation then ends with `StreamNotFound` or
    /// `SubscriptionNotFound` where either is not there.
    pub fn commit(
        &self,
        stream_id: &str,
        subscription_id: &str,
        request: &CommitRequest,
    ) -> (operation: Result<CommitOffsets, Error>)
        ensures
            match decoded_cursor(request.cursor@) {
                Ok(offsets) => operation is Ok && exists|now: Timestamp|
                    operation->Ok_0@ == CommitOffsetsModel::start(
                        stream_id@,
                        subscription_id@,
                        offsets,
                        now,
                    ),
                Err(error) => operation is Err && operation->Err_0@ == error,
            },
    {
        let now = Timestamp::now();
        let operation = CommitOffsets::from_cursor(
            stream_id,
            subscription_id,
            request.cursor.as_str(),
            now,
        );
        proof {
            match decoded_cursor(request.cursor@) {
                Ok(offsets) => {
                    assert(operation->Ok_0@ == CommitOffsetsModel::start(
                        stream_id@,
                        subscription_id@,
                        offsets,
                        now,
                    ));
                },
                Err(_) => {},
            }
        }
        operation
    }

    /// Starts the compaction of one change of the table; the present time
    /// stands in for a timestamp that the changed row lacks.
    pub fn compact(&self, record: &ChangeRecord) -> (operation: Compaction)
        ensures
            exists|now: Timestamp| operation@ == CompactionModel::start(record@, now),
    {
        let now = Timestamp::now();
        let operation = Compaction::new(record, now);
        assert(operation@ == CompactionModel::start(record@, now));
        operation
    }
}

} // verus!
