use eventledger_core::http::{
    admin_route, error_response, poll_limit, poll_route, publish_body_shape, AdminRoute, BodyShape,
    PollRoute,
};
use eventledger_core::text::{chars_of, contains, ends_with};
use eventledger_core::{Error, ErrorResponse};

#[test]
fn test_error_response() {
    let err = ErrorResponse::new("not_found", "Stream not found");
    let json = err.to_json();
    assert!(json.contains("not_found"));
    assert!(json.contains("Stream not found"));
    assert!(!json.contains("details"));
}

#[test]
fn error_response_json_is_exact() {
    let err = ErrorResponse::new("not_found", "Stream \"a\\b\" not found\n");
    assert_eq!(
        err.to_json(),
        r#"{"error":"not_found","message":"Stream \"a\\b\" not found\n"}"#
    );
    let with = ErrorResponse::new("e", "m").with_details("{\"k\":[1,2]}".to_string());
    assert_eq!(with.to_json(), r#"{"error":"e","message":"m","details":{"k":[1,2]}}"#);
    let parsed: serde_json::Value = serde_json::from_str(&with.to_json()).unwrap();
    assert_eq!(parsed.get("error").and_then(|v| v.as_str()), Some("e"));
}

#[test]
fn errors_become_responses() {
    let (status, body) = error_response(&Error::StreamAlreadyExists("dup1".to_string()));
    assert_eq!(status, 409);
    assert_eq!(body.error, "stream_already_exists");
    assert_eq!(body.message, "Stream already exists: dup1");
    assert_eq!(body.details, None);
    let (status, body) = error_response(&Error::Database("down".to_string()));
    assert_eq!(status, 500);
    assert_eq!(body.error, "database_error");
    assert_eq!(body.message, "Database error: down");
}

#[test]
fn admin_requests_are_routed() {
    assert_eq!(admin_route("POST", "/streams"), AdminRoute::CreateStream);
    assert_eq!(admin_route("GET", "/streams"), AdminRoute::ListStreams);
    assert_eq!(admin_route("GET", "/streams/orders"), AdminRoute::GetStream);
    assert_eq!(admin_route("DELETE", "/streams/orders"), AdminRoute::DeleteStream);
    assert_eq!(admin_route("POST", "/streams/orders/subscriptions"), AdminRoute::CreateSubscription);
    assert_eq!(
        admin_route("DELETE", "/streams/orders/subscriptions/s1"),
        AdminRoute::DeleteSubscription
    );
    assert_eq!(admin_route("GET", "/streams/orders/subscriptions"), AdminRoute::NotFound);
    assert_eq!(admin_route("DELETE", "/streams/orders/subscriptions"), AdminRoute::NotFound);
    assert_eq!(admin_route("POST", "/streams/orders/subscriptions/s1/poll"), AdminRoute::NotFound);
    assert_eq!(admin_route("POST", "/streams/orders/subscriptions/s1/commit"), AdminRoute::NotFound);
    assert_eq!(admin_route("PUT", "/streams"), AdminRoute::NotFound);
    assert_eq!(admin_route("GET", "/stream"), AdminRoute::NotFound);
    assert_eq!(admin_route("GET", "/streams/"), AdminRoute::GetStream);
    assert_eq!(admin_route("get", "/streams"), AdminRoute::NotFound);
    assert_eq!(admin_route("POST", "/streams/orders"), AdminRoute::NotFound);
    assert_eq!(admin_route("", ""), AdminRoute::NotFound);
}

#[test]
fn poll_requests_are_routed() {
    assert_eq!(poll_route("GET", "/streams/o/subscriptions/s/poll"), PollRoute::Poll);
    assert_eq!(poll_route("POST", "/streams/o/subscriptions/s/commit"), PollRoute::Commit);
    assert_eq!(poll_route("POST", "/streams/o/subscriptions/s/poll"), PollRoute::NotFound);
    assert_eq!(poll_route("GET", "/streams/o/subscriptions/s/commit"), PollRoute::NotFound);
    assert_eq!(poll_route("GET", "/poll"), PollRoute::Poll);
    assert_eq!(poll_route("GET", "poll"), PollRoute::NotFound);
    assert_eq!(poll_route("GET", "/poll/"), PollRoute::NotFound);
}

#[test]
fn poll_limit_defaults_to_a_hundred() {
    assert_eq!(poll_limit(None), 100);
    assert_eq!(poll_limit(Some("10")), 10);
    assert_eq!(poll_limit(Some("0")), 0);
    assert_eq!(poll_limit(Some("4294967295")), u32::MAX);
    assert_eq!(poll_limit(Some("4294967296")), 100);
    assert_eq!(poll_limit(Some("-1")), 100);
    assert_eq!(poll_limit(Some("ten")), 100);
    assert_eq!(poll_limit(Some("")), 100);
}

#[test]
fn publish_bodies_are_told_apart() {
    assert_eq!(publish_body_shape("[{\"key\":\"a\"}]"), BodyShape::List);
    assert_eq!(publish_body_shape("  \n\t [ ]"), BodyShape::List);
    assert_eq!(publish_body_shape("\u{00A0}\u{3000}["), BodyShape::List);
    assert_eq!(publish_body_shape("{\"events\":[]}"), BodyShape::Wrapped);
    assert_eq!(publish_body_shape("{\"key\":\"k\",\"type\":\"t\",\"data\":{}}"), BodyShape::Single);
    assert_eq!(publish_body_shape("{\"data\":{\"events\":1},\"key\":\"k\"}"), BodyShape::Wrapped);
    assert_eq!(publish_body_shape("x["), BodyShape::Single);
    assert_eq!(publish_body_shape(""), BodyShape::Single);
    assert_eq!(publish_body_shape("   "), BodyShape::Single);
    assert_eq!(publish_body_shape("\u{200B}["), BodyShape::Single);
    // As the standard library trims.
    for body in ["\u{0085}[", "\u{1680}[", "\u{2000}[", "\u{200A}[", "\u{2028}[", "\u{2029}[",
        "\u{202F}[", "\u{205F}[", "\u{000B}[", "\u{000C}[", "\u{001F}[", "\u{180E}[", "\u{FEFF}["]
    {
        let expected =
            if body.trim().starts_with('[') { BodyShape::List } else { BodyShape::Single };
        assert_eq!(publish_body_shape(body), expected, "{:?}", body);
    }
}

#[test]
fn texts_are_searched_as_the_standard_library_searches() {
    let texts = ["", "a", "ab", "abc", "/streams/x/subscriptions", "ééé", "aaa", "abab", "xéy"];
    for s in texts {
        for p in texts {
            assert_eq!(contains(s, p), s.contains(p), "{:?} in {:?}", p, s);
            assert_eq!(ends_with(s, p), s.ends_with(p), "{:?} ends {:?}", p, s);
        }
        assert_eq!(chars_of(s), s.chars().collect::<Vec<char>>());
    }
}
