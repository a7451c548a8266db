//! The entities of the log: streams, events, subscriptions, offsets and the
//! compacted state, with the requests and responses that carry them.
//!
//! Event payloads are held as JSON text and are never looked into here.

use vstd::prelude::*;
use vstd::string::StringExecFns;

verus! {

/// An instant: whole seconds since the start of 1970 in UTC, leap seconds
/// left out, and the nanoseconds into that second.
#[derive(Debug, Clone, Copy, PartialEq, Eq, Structural)]
pub struct Timestamp {
    pub seconds: i64,
    pub nanos: u32,
}

/// The instant that an RFC 3339 text names, as seconds and nanoseconds, if
/// the text is one.
pub uninterp spec fn rfc3339_instant(text: Seq<char>) -> Option<(i64, u32)>;

impl Timestamp {
    /// Whether this instant lies strictly before `other`.
    pub open spec fn is_before(self, other: Timestamp) -> bool {
        self.seconds < other.seconds || (self.seconds == other.seconds && self.nanos < other.nanos)
    }

    /// Whether this instant lies strictly before `other`.
    pub fn before(&self, other: &Timestamp) -> (earlier: bool)
        ensures
            earlier == self.is_before(*other),
    {
        self.seconds < other.seconds || (self.seconds == other.seconds && self.nanos < other.nanos)
    }

    /// `chrono::Utc::now`, read as seconds and nanoseconds. Nothing is known
    /// of the instant that comes back. The call does not return on a machine
    /// whose clock stands before 1970.
    #[verifier::external_body]
    pub(crate) fn now() -> (instant: Timestamp) {
        let t = chrono::Utc::now();
        Timestamp { seconds: t.timestamp(), nanos: t.timestamp_subsec_nanos() }
    }

    /// `chrono::DateTime::parse_from_rfc3339`: the instant that the text
    /// names, or `None` where it is no RFC 3339 date and time. The same text
    /// always gives the same instant.
    #[verifier::external_body]
    pub(crate) fn parse_rfc3339(text: &str) -> (instant: Option<Timestamp>)
        ensures
            match rfc3339_instant(text@) {
                Some(at) => instant == Some(Timestamp { seconds: at.0, nanos: at.1 }),
                None => instant is None,
            },
    {
        match chrono::DateTime::parse_from_rfc3339(text) {
            Ok(t) => Some(Timestamp { seconds: t.timestamp(), nanos: t.timestamp_subsec_nanos() }),
            Err(_) => None,
        }
    }
}

/// Stream metadata.
#[derive(Debug, PartialEq, Eq)]
pub struct Stream {
    /// Unique stream identifier.
    pub stream_id: String,
    /// Number of partitions.
    pub partition_count: u32,
    /// Retention period in hours.
    pub retention_hours: u32,
    /// When the stream was created.
    pub created_at: Timestamp,
}

/// The mathematical value of a [`Stream`].
pub struct StreamView {
    pub stream_id: Seq<char>,
    pub partition_count: u32,
    pub retention_hours: u32,
    pub created_at: Timestamp,
}

impl View for Stream {
    type V = StreamView;

    open spec fn view(&self) -> StreamView {
        StreamView {
            stream_id: self.stream_id@,
            partition_count: self.partition_count,
            retention_hours: self.retention_hours,
            created_at: self.created_at,
        }
    }
}

impl DeepView for Stream {
    type V = StreamView;

    open spec fn deep_view(&self) -> StreamView {
        self@
    }
}

impl Clone for Stream {
    fn clone(&self) -> (copy: Self)
        ensures
            copy@ == self@,
    {
        Stream {
            stream_id: self.stream_id.clone(),
            partition_count: self.partition_count,
            retention_hours: self.retention_hours,
            created_at: self.created_at,
        }
    }
}

impl Stream {
    /// A stream created at the given instant.
    pub fn created(
        stream_id: String,
        partition_count: u32,
        retention_hours: u32,
        created_at: Timestamp,
    ) -> (stream: Self)
        ensures
            stream@ == (StreamView {
                stream_id: stream_id@,
                partition_count,
                retention_hours,
                created_at,
            }),
    {
        Stream { stream_id, partition_count, retention_hours, created_at }
    }

    /// A stream created now.
    pub fn new(stream_id: String, partition_count: u32, retention_hours: u32) -> (stream: Self)
        ensures
            stream.stream_id@ == stream_id@,
            stream.partition_count == partition_count,
            stream.retention_hours == retention_hours,
    {
        Stream::created(stream_id, partition_count, retention_hours, Timestamp::now())
    }
}

/// The number of partitions of a stream for which none is asked.
pub fn default_partition_count() -> (count: u32)
    ensures
        count == 3,
{
    3
}

/// The retention of a stream for which none is asked: seven days.
pub fn default_retention_hours() -> (hours: u32)
    ensures
        hours == 168,
{
    168
}

/// The number of events that a poll returns at most where none is asked.
pub fn default_batch_size() -> (limit: u32)
    ensures
        limit == 100,
{
    100
}

/// Request to create a new stream.
#[derive(Debug, Clone, PartialEq, Eq)]
pub struct CreateStreamRequest {
    /// Unique stream identifier.
    pub stream_id: String,
    /// Number of partitions (default: 3).
    pub partition_count: u32,
    /// Retention period in hours (default: 168).
    pub retention_hours: u32,
}

impl CreateStreamRequest {
    /// A request for a stream with the default shape.
    pub fn new(stream_id: String) -> (request: Self)
        ensures
            request.stream_id@ == stream_id@,
            request.partition_count == 3,
            request.retention_hours == 168,
    {
        CreateStreamRequest {
            stream_id,
            partition_count: default_partition_count(),
            retention_hours: default_retention_hours(),
        }
    }
}

/// An event in the log.
#[derive(Debug, PartialEq, Eq)]
pub struct Event {
    /// Stream this event belongs to.
    pub stream_id: String,
    /// Partition number, counted from zero.
    pub partition: u32,
    /// Sequence number within the partition.
    pub sequence: u64,
    /// Key for partitioning and compaction.
    pub key: String,
    /// Event type, such as `order.created`.
    pub event_type: String,
    /// Event payload, as JSON text.
    pub data: String,
    /// When the event was published.
    pub timestamp: Timestamp,
}

/// The mathematical value of an [`Event`].
pub struct EventView {
    pub stream_id: Seq<char>,
    pub partition: u32,
    pub sequence: u64,
    pub key: Seq<char>,
    pub event_type: Seq<char>,
    pub data: Seq<char>,
    pub timestamp: Timestamp,
}

impl View for Event {
    type V = EventView;

    open spec fn view(&self) -> EventView {
        EventView {
            stream_id: self.stream_id@,
            partition: self.partition,
            sequence: self.sequence,
            key: self.key@,
            event_type: self.event_type@,
            data: self.data@,
            timestamp: self.timestamp,
        }
    }
}

impl DeepView for Event {
    type V = EventView;

    open spec fn deep_view(&self) -> EventView {
        self@
    }
}

impl Clone for Event {
    fn clone(&self) -> (copy: Self)
        ensures
            copy@ == self@,
    {
        Event {
            stream_id: self.stream_id.clone(),
            partition: self.partition,
            sequence: self.sequence,
            key: self.key.clone(),
            event_type: self.event_type.clone(),
            data: self.data.clone(),
            timestamp: self.timestamp,
        }
    }
}

/// Single event to publish.
#[derive(Debug, PartialEq, Eq)]
pub struct PublishEvent {
    /// Key for partitioning and compaction.
    pub key: String,
    /// Event type.
    pub event_type: String,
    /// Event payload, as JSON text.
    pub data: String,
}

/// The mathematical value of a [`PublishEvent`].
pub struct PublishEventView {
    pub key: Seq<char>,
    pub event_type: Seq<char>,
    pub data: Seq<char>,
}

impl View for PublishEvent {
    type V = PublishEventView;

    open spec fn view(&self) -> PublishEventView {
        PublishEventView { key: self.key@, event_type: self.event_type@, data: self.data@ }
    }
}

impl DeepView for PublishEvent {
    type V = PublishEventView;

    open spec fn deep_view(&self) -> PublishEventView {
        self@
    }
}

impl Clone for PublishEvent {
    fn clone(&self) -> (copy: Self)
        ensures
            copy@ == self@,
    {
        PublishEvent {
            key: self.key.clone(),
            event_type: self.event_type.clone(),
            data: self.data.clone(),
        }
    }
}

/// Request to publish events.
#[derive(Debug, Clone, PartialEq, Eq)]
pub struct PublishRequest {
    /// Events to publish.
    pub events: Vec<PublishEvent>,
}

/// Reference to a published event.
#[derive(Debug, PartialEq, Eq)]
pub struct PublishedEvent {
    pub stream_id: String,
    pub partition: u32,
    pub sequence: u64,
    pub key: String,
    pub timestamp: Timestamp,
}

/// The mathematical value of a [`PublishedEvent`].
pub struct PublishedEventView {
    pub stream_id: Seq<char>,
    pub partition: u32,
    pub sequence: u64,
    pub key: Seq<char>,
    pub timestamp: Timestamp,
}

impl View for PublishedEvent {
    type V = PublishedEventView;

    open spec fn view(&self) -> PublishedEventView {
        PublishedEventView {
            stream_id: self.stream_id@,
            partition: self.partition,
            sequence: self.sequence,
            key: self.key@,
            timestamp: self.timestamp,
        }
    }
}

impl DeepView for PublishedEvent {
    type V = PublishedEventView;

    open spec fn deep_view(&self) -> PublishedEventView {
        self@
    }
}

impl Clone for PublishedEvent {
    fn clone(&self) -> (copy: Self)
        ensures
            copy@ == self@,
    {
        PublishedEvent {
            stream_id: self.stream_id.clone(),
            partition: self.partition,
            sequence: self.sequence,
            key: self.key.clone(),
            timestamp: self.timestamp,
        }
    }
}

/// Response after publishing events.
#[derive(Debug, Clone, PartialEq, Eq)]
pub struct PublishResponse {
    /// Published event references.
    pub events: Vec<PublishedEvent>,
}

/// Subscription configuration.
#[derive(Debug, PartialEq, Eq)]
pub struct Subscription {
    /// Stream being subscribed to.
    pub stream_id: String,
    /// Unique subscription identifier.
    pub subscription_id: String,
    /// When the subscription was created.
    pub created_at: Timestamp,
}

/// The mathematical value of a [`Subscription`].
pub struct SubscriptionView {
    pub stream_id: Seq<char>,
    pub subscription_id: Seq<char>,
    pub created_at: Timestamp,
}

impl View for Subscription {
    type V = SubscriptionView;

    open spec fn view(&self) -> SubscriptionView {
        SubscriptionView {
            stream_id: self.stream_id@,
            subscription_id: self.subscription_id@,
            created_at: self.created_at,
        }
    }
}

impl DeepView for Subscription {
    type V = SubscriptionView;

    open spec fn deep_view(&self) -> SubscriptionView {
        self@
    }
}

impl Clone for Subscription {
    fn clone(&self) -> (copy: Self)
        ensures
            copy@ == self@,
    {
        Subscription {
            stream_id: self.stream_id.clone(),
            subscription_id: self.subscription_id.clone(),
            created_at: self.created_at,
        }
    }
}

impl Subscription {
    /// A subscription created at the given instant.
    pub fn created(
        stream_id: String,
        subscription_id: String,
        created_at: Timestamp,
    ) -> (subscription: Self)
        ensures
            subscription@ == (SubscriptionView {
                stream_id: stream_id@,
                subscription_id: subscription_id@,
                created_at,
            }),
    {
        Subscription { stream_id, subscription_id, created_at }
    }

    /// A subscription created now.
    pub fn new(stream_id: String, subscription_id: String) -> (subscription: Self)
        ensures
            subscription.stream_id@ == stream_id@,
            subscription.subscription_id@ == subscription_id@,
    {
        Subscription::created(stream_id, subscription_id, Timestamp::now())
    }
}

/// Starting position for a new subscription.
#[derive(Debug, Clone, Copy, PartialEq, Eq, Structural)]
pub enum StartFrom {
    /// Start from the earliest available event.
    Earliest,
    /// Start from new events only (the default).
    Latest,
    /// Start from compacted state: the latest event of each key.
    Compacted,
}

impl Default for StartFrom {
    fn default() -> (start: Self)
        ensures
            start == StartFrom::Latest,
    {
        StartFrom::Latest
    }
}

impl StartFrom {
    /// The name of a starting position on the wire.
    pub open spec fn wire_text(self) -> Seq<char> {
        match self {
            StartFrom::Earliest => "earliest"@,
            StartFrom::Latest => "latest"@,
            StartFrom::Compacted => "compacted"@,
        }
    }

    /// The name of this starting position on the wire.
    pub fn wire_name(&self) -> (name: &'static str)
        ensures
            name@ == self.wire_text(),
    {
        match self {
            StartFrom::Earliest => "earliest",
            StartFrom::Latest => "latest",
            StartFrom::Compacted => "compacted",
        }
    }
}

/// Request to create a subscription.
#[derive(Debug, Clone, PartialEq, Eq)]
pub struct CreateSubscriptionRequest {
    /// Unique subscription identifier.
    pub subscription_id: String,
    /// Where to start consuming from.
    pub start_from: StartFrom,
}

impl CreateSubscriptionRequest {
    /// A request for a subscription that starts at the default position.
    pub fn new(subscription_id: String) -> (request: Self)
        ensures
            request.subscription_id@ == subscription_id@,
            request.start_from == StartFrom::Latest,
    {
        CreateSubscriptionRequest { subscription_id, start_from: StartFrom::Latest }
    }
}

/// Consumer offset of a subscription in one partition.
#[derive(Debug, Clone, PartialEq, Eq)]
pub struct ConsumerOffset {
    pub stream_id: String,
    pub subscription_id: String,
    pub partition: u32,
    pub offset: u64,
    pub committed_at: Timestamp,
}

/// Request to poll for events.
#[derive(Debug, Clone, Copy, PartialEq, Eq, Structural)]
pub struct PollRequest {
    /// Maximum number of events to return.
    pub limit: u32,
}

impl Default for PollRequest {
    fn default() -> (request: Self)
        ensures
            request.limit == 100,
    {
        PollRequest { limit: default_batch_size() }
    }
}

/// The offset that a cursor proposes for one partition.
#[derive(Debug, Clone, Copy, PartialEq, Eq, Structural)]
pub struct PartitionOffset {
    pub partition: u32,
    pub offset: u64,
}

/// Cursor state: what the cursor string encodes.
#[derive(Debug, Clone, PartialEq, Eq)]
pub struct CursorState {
    /// Offsets per partition at the time of the poll.
    pub offsets: Vec<PartitionOffset>,
}

/// Response from polling.
#[derive(Debug, Clone, PartialEq, Eq)]
pub struct PollResponse {
    /// Events retrieved.
    pub events: Vec<Event>,
    /// Opaque cursor for committing.
    pub cursor: String,
    /// Reserved: always zero.
    pub remaining: u64,
}

/// The mathematical value of a [`PollResponse`].
pub struct PollResponseView {
    pub events: Seq<EventView>,
    pub cursor: Seq<char>,
    pub remaining: u64,
}

impl View for PollResponse {
    type V = PollResponseView;

    open spec fn view(&self) -> PollResponseView {
        PollResponseView {
            events: self.events.deep_view(),
            cursor: self.cursor@,
            remaining: self.remaining,
        }
    }
}

impl DeepView for PollResponse {
    type V = PollResponseView;

    open spec fn deep_view(&self) -> PollResponseView {
        self@
    }
}

/// Request to commit a cursor.
#[derive(Debug, Clone, PartialEq, Eq)]
pub struct CommitRequest {
    /// Cursor from a poll response.
    pub cursor: String,
}

/// Response after committing.
#[derive(Debug, Clone, Copy, PartialEq, Eq, Structural)]
pub struct CommitResponse {
    /// Whether the commit succeeded.
    pub success: bool,
}

/// Compacted state: the latest event of one key.
#[derive(Debug, PartialEq, Eq)]
pub struct CompactedEvent {
    pub stream_id: String,
    pub key: String,
    pub event_type: String,
    /// Event payload, as JSON text.
    pub data: String,
    /// Sequence number of the event.
    pub sequence: u64,
    pub partition: u32,
    pub timestamp: Timestamp,
}

/// The mathematical value of a [`CompactedEvent`].
pub struct CompactedEventView {
    pub stream_id: Seq<char>,
    pub key: Seq<char>,
    pub event_type: Seq<char>,
    pub data: Seq<char>,
    pub sequence: u64,
    pub partition: u32,
    pub timestamp: Timestamp,
}

impl View for CompactedEvent {
    type V = CompactedEventView;

    open spec fn view(&self) -> CompactedEventView {
        CompactedEventView {
            stream_id: self.stream_id@,
            key: self.key@,
            event_type: self.event_type@,
            data: self.data@,
            sequence: self.sequence,
            partition: self.partition,
            timestamp: self.timestamp,
        }
    }
}

impl DeepView for CompactedEvent {
    type V = CompactedEventView;

    open spec fn deep_view(&self) -> CompactedEventView {
        self@
    }
}

impl Clone for CompactedEvent {
    fn clone(&self) -> (copy: Self)
        ensures
            copy@ == self@,
    {
        CompactedEvent {
            stream_id: self.stream_id.clone(),
            key: self.key.clone(),
            event_type: self.event_type.clone(),
            data: self.data.clone(),
            sequence: self.sequence,
            partition: self.partition,
            timestamp: self.timestamp,
        }
    }
}

/// API error response.
#[derive(Debug, Clone, PartialEq, Eq)]
pub struct ErrorResponse {
    /// The stable error code.
    pub error: String,
    /// The message for people.
    pub message: String,
    /// Further details, as JSON text.
    pub details: Option<String>,
}

impl ErrorResponse {
    /// An error response without details.
    pub fn new(error: &str, message: &str) -> (response: Self)
        ensures
            response.error@ == error@,
            response.message@ == message@,
            response.details is None,
    {
        ErrorResponse {
            error: String::from_str(error),
            message: String::from_str(message),
            details: None,
        }
    }

    /// The same response with details attached.
    pub fn with_details(self, details: String) -> (response: Self)
        ensures
            response.error@ == self.error@,
            response.message@ == self.message@,
            response.details == Some(details),
    {
        ErrorResponse { error: self.error, message: self.message, details: Some(details) }
    }
}

} // verus!
