use eventledger_core::Error;

#[test]
fn test_error_codes() {
    let err = Error::StreamNotFound("orders".into());
    assert_eq!(err.code(), "stream_not_found");
    assert_eq!(err.status_code(), 404);
}

#[test]
fn test_error_display() {
    let err = Error::StreamNotFound("orders".into());
    assert_eq!(err.message(), "Stream not found: orders");
}

#[test]
fn test_validation_error() {
    let err = Error::Validation("stream_id is required".into());
    assert_eq!(err.code(), "validation_error");
    assert_eq!(err.status_code(), 400);
}

#[test]
fn every_error_has_its_code_status_and_message() {
    let cases: Vec<(Error, &str, u16, &str)> = vec![
        (Error::StreamNotFound("a".into()), "stream_not_found", 404, "Stream not found: a"),
        (
            Error::StreamAlreadyExists("a".into()),
            "stream_already_exists",
            409,
            "Stream already exists: a",
        ),
        (
            Error::SubscriptionNotFound("s".into()),
            "subscription_not_found",
            404,
            "Subscription not found: s",
        ),
        (
            Error::SubscriptionAlreadyExists("s".into()),
            "subscription_already_exists",
            409,
            "Subscription already exists: s",
        ),
        (Error::InvalidStreamId("x".into()), "invalid_stream_id", 400, "Invalid stream ID: x"),
        (
            Error::InvalidSubscriptionId("x".into()),
            "invalid_subscription_id",
            400,
            "Invalid subscription ID: x",
        ),
        (Error::InvalidCursor("c".into()), "invalid_cursor", 400, "Invalid cursor: c"),
        (Error::InvalidEventKey("k".into()), "invalid_event_key", 400, "Invalid event key: k"),
        (Error::Validation("v".into()), "validation_error", 400, "Validation error: v"),
        (Error::Database("d".into()), "database_error", 500, "Database error: d"),
        (Error::Serialization("j".into()), "serialization_error", 400, "Serialization error: j"),
        (
            Error::DynamoSerialization("r".into()),
            "serialization_error",
            500,
            "DynamoDB serialization error: r",
        ),
        (Error::Internal("i".into()), "internal_error", 500, "Internal error: i"),
    ];
    for (error, code, status, message) in cases {
        assert_eq!(error.code(), code);
        assert_eq!(error.status_code(), status);
        assert_eq!(error.message(), message);
        assert_eq!(error.clone(), error);
    }
}
