use eventledger_core::{
    default_batch_size, default_partition_count, default_retention_hours, CreateStreamRequest,
    CreateSubscriptionRequest, ErrorResponse, PollRequest, StartFrom, Stream, Subscription,
    Timestamp,
};

#[test]
fn test_stream_creation() {
    let stream = Stream::new("orders".into(), 3, 168);
    assert_eq!(stream.stream_id, "orders");
    assert_eq!(stream.partition_count, 3);
    assert_eq!(stream.retention_hours, 168);
}

#[test]
fn test_create_stream_request_defaults() {
    let req = CreateStreamRequest::new("orders".to_string());
    assert_eq!(req.partition_count, 3);
    assert_eq!(req.retention_hours, 168);
}

#[test]
fn test_start_from_serialization() {
    assert_eq!(format!("\"{}\"", StartFrom::Earliest.wire_name()), r#""earliest""#);
    assert_eq!(format!("\"{}\"", StartFrom::Compacted.wire_name()), r#""compacted""#);
}

#[test]
fn defaults_are_three_partitions_a_week_and_a_hundred_events() {
    assert_eq!(default_partition_count(), 3);
    assert_eq!(default_retention_hours(), 168);
    assert_eq!(default_batch_size(), 100);
    assert_eq!(PollRequest::default().limit, 100);
    assert_eq!(StartFrom::default(), StartFrom::Latest);
    assert_eq!(StartFrom::Latest.wire_name(), "latest");
    let request = CreateSubscriptionRequest::new("s1".to_string());
    assert_eq!(request.subscription_id, "s1");
    assert_eq!(request.start_from, StartFrom::Latest);
}

#[test]
fn stream_is_created_now() {
    let stream = Stream::new("orders".into(), 1, 1);
    // Any time after 2020 and before 2100.
    assert!(stream.created_at.seconds > 1_577_836_800);
    assert!(stream.created_at.seconds < 4_102_444_800);
    let subscription = Subscription::new("orders".into(), "s1".into());
    assert_eq!(subscription.stream_id, "orders");
    assert_eq!(subscription.subscription_id, "s1");
    assert!(!subscription.created_at.before(&stream.created_at));
}

#[test]
fn created_keeps_the_given_instant() {
    let at = Timestamp { seconds: 10, nanos: 20 };
    let stream = Stream::created("orders".into(), 2, 24, at);
    assert_eq!(stream.created_at, at);
    let subscription = Subscription::created("orders".into(), "s".into(), at);
    assert_eq!(subscription.created_at, at);
}

#[test]
fn instants_are_ordered_by_seconds_then_nanoseconds() {
    let a = Timestamp { seconds: 1, nanos: 5 };
    let b = Timestamp { seconds: 1, nanos: 6 };
    let c = Timestamp { seconds: 2, nanos: 0 };
    let d = Timestamp { seconds: -1, nanos: 999 };
    assert!(a.before(&b));
    assert!(b.before(&c));
    assert!(a.before(&c));
    assert!(d.before(&a));
    assert!(!b.before(&a));
    assert!(!a.before(&a));
}

#[test]
fn error_response_carries_code_message_and_details() {
    let err = ErrorResponse::new("not_found", "Stream not found");
    assert_eq!(err.error, "not_found");
    assert_eq!(err.message, "Stream not found");
    assert!(err.details.is_none());
    let with = err.with_details("{\"id\":1}".to_string());
    assert_eq!(with.error, "not_found");
    assert_eq!(with.details, Some("{\"id\":1}".to_string()));
}
