//! Core of a partitioned, append-only event log with per-key compaction and
//! consumer offsets, kept in one wide table keyed by a partition key and a
//! sort key.
//!
//! The library holds the rules of the log: how keys map to partitions, how
//! rows are keyed, how cursors are written and read, and the decisions that
//! each operation takes between two calls to the backing table. The table
//! itself is reached by the caller: every operation is a small state machine
//! that hands out one request at a time and is resumed with the reply.

pub mod compactor;
pub mod cursor;
pub mod dynamo;
pub mod errors;
pub mod http;
pub mod json;
pub mod keys;
pub mod laws;
pub mod memory;
pub mod models;
pub mod operation;
pub mod partitioner;
pub mod poll;
pub mod publisher;
pub mod registry;
pub mod replies;
pub mod store;
pub mod subscriptions;
pub mod text;

pub use dynamo::DynamoClient;
pub use errors::Error;
pub use models::{
    default_batch_size, default_partition_count, default_retention_hours, CommitRequest,
    CommitResponse, CompactedEvent, ConsumerOffset, CreateStreamRequest,
    CreateSubscriptionRequest, CursorState, ErrorResponse, Event, PartitionOffset, PollRequest,
    PollResponse, PublishEvent, PublishRequest, PublishResponse, PublishedEvent, StartFrom,
    Stream, Subscription, Timestamp,
};
pub use partitioner::Partitioner;
