//! What the HTTP surface decides: which operation a request asks for, how a
//! request body is shaped, and what an error looks like in a response.

use crate::errors::Error;
use crate::json::{json_string, json_string_of};
use crate::models::ErrorResponse;
use crate::text::{
    chars_of, contains, contains_text, ends_with, has_prefix, has_suffix, parse_u32, parse_unsigned,
    same_text, starts_with,
};
use vstd::prelude::*;
use vstd::string::StringExecFns;

verus! {

/// What a request to the administration endpoint asks for.
#[derive(Debug, Clone, Copy, PartialEq, Eq, Structural)]
pub enum AdminRoute {
    CreateStream,
    ListStreams,
    GetStream,
    DeleteStream,
    CreateSubscription,
    DeleteSubscription,
    NotFound,
}

/// What a request to the polling endpoint asks for.
#[derive(Debug, Clone, Copy, PartialEq, Eq, Structural)]
pub enum PollRoute {
    Poll,
    Commit,
    NotFound,
}

/// Whether a path names one stream: it lies under `/streams/` and names no
/// subscription.
pub open spec fn is_stream_path(path: Seq<char>) -> bool {
    has_prefix(path, "/streams/"@) && !contains_text(path, "/subscriptions"@)
}

/// The operation that a method and a path of the administration endpoint
/// ask for.
pub open spec fn admin_route_of(method: Seq<char>, path: Seq<char>) -> AdminRoute {
    if method == "POST"@ && path == "/streams"@ {
        AdminRoute::CreateStream
    } else if method == "GET"@ && path == "/streams"@ {
        AdminRoute::ListStreams
    } else if method == "GET"@ && is_stream_path(path) {
        AdminRoute::GetStream
    } else if method == "DELETE"@ && is_stream_path(path) {
        AdminRoute::DeleteStream
    } else if method == "POST"@ && contains_text(path, "/subscriptions"@) && !has_suffix(
        path,
        "/poll"@,
    ) && !has_suffix(path, "/commit"@) {
        AdminRoute::CreateSubscription
    } else if method == "DELETE"@ && contains_text(path, "/subscriptions/"@) {
        AdminRoute::DeleteSubscription
    } else {
        AdminRoute::NotFound
    }
}

/// Tells which operation a request to the administration endpoint asks for.
pub fn admin_route(method: &str, path: &str) -> (route: AdminRoute)
    ensures
        route == admin_route_of(method@, path@),
{
    let streams = same_text(path, "/streams");
    if same_text(method, "POST") && streams {
        return AdminRoute::CreateStream;
    }
    if same_text(method, "GET") && streams {
        return AdminRoute::ListStreams;
    }
    let names_subscription = contains(path, "/subscriptions");
    let one_stream = starts_with(path, "/streams/") && !names_subscription;
    if same_text(method, "GET") && one_stream {
        return AdminRoute::GetStream;
    }
    if same_text(method, "DELETE") && one_stream {
        return AdminRoute::DeleteStream;
    }
    if same_text(method, "POST") && names_subscription && !ends_with(path, "/poll") && !ends_with(
        path,
        "/commit",
    ) {
        return AdminRoute::CreateSubscription;
    }
    if same_text(method, "DELETE") && contains(path, "/subscriptions/") {
        return AdminRoute::DeleteSubscription;
    }
    AdminRoute::NotFound
}

/// The operation that a method and a path of the polling endpoint ask for.
pub open spec fn poll_route_of(method: Seq<char>, path: Seq<char>) -> PollRoute {
    if method == "GET"@ && has_suffix(path, "/poll"@) {
        PollRoute::Poll
    } else if method == "POST"@ && has_suffix(path, "/commit"@) {
        PollRoute::Commit
    } else {
        PollRoute::NotFound
    }
}

/// Tells which operation a request to the polling endpoint asks for.
pub fn poll_route(method: &str, path: &str) -> (route: PollRoute)
    ensures
        route == poll_route_of(method@, path@),
{
    if same_text(method, "GET") && ends_with(path, "/poll") {
        PollRoute::Poll
    } else if same_text(method, "POST") && ends_with(path, "/commit") {
        PollRoute::Commit
    } else {
        PollRoute::NotFound
    }
}

/// The limit of a poll: the number that the query gives, or 100 where it
/// gives none or none that can be read.
pub open spec fn poll_limit_of(query: Option<Seq<char>>) -> u32 {
    match query {
        Some(text) => match parse_unsigned(text, u32::MAX as nat) {
            Some(limit) => limit as u32,
            None => 100,
        },
        None => 100,
    }
}

/// Reads the limit of a poll from the value of its `limit` parameter.
pub fn poll_limit(query: Option<&str>) -> (limit: u32)
    ensures
        limit == poll_limit_of(
            match query {
                Some(text) => Some(text@),
                None => None,
            },
        ),
{
    match query {
        Some(text) => match parse_u32(text) {
            Some(limit) => limit,
            None => 100,
        },
        None => 100,
    }
}

/// Whether a character is white space.
pub open spec fn is_space(c: char) -> bool {
    ||| '\u{0009}' <= c <= '\u{000D}'
    ||| c == '\u{0020}'
    ||| c == '\u{0085}'
    ||| c == '\u{00A0}'
    ||| c == '\u{1680}'
    ||| '\u{2000}' <= c <= '\u{200A}'
    ||| c == '\u{2028}'
    ||| c == '\u{2029}'
    ||| c == '\u{202F}'
    ||| c == '\u{205F}'
    ||| c == '\u{3000}'
}

/// The first character of a text that is not white space, if there is one.
pub open spec fn first_visible(text: Seq<char>) -> Option<char>
    decreases text.len(),
{
    if text.len() == 0 {
        None
    } else if is_space(text[0]) {
        first_visible(text.drop_first())
    } else {
        Some(text[0])
    }
}

/// How the body of a publish request holds its events.
#[derive(Debug, Clone, Copy, PartialEq, Eq, Structural)]
pub enum BodyShape {
    /// A list of events.
    List,
    /// An object with the events under `events`.
    Wrapped,
    /// One event.
    Single,
}

/// The shape of the body of a publish request: a list where it begins with
/// `[` after any white space, else wrapped where it holds `"events"`, else a
/// single event.
pub open spec fn body_shape_of(body: Seq<char>) -> BodyShape {
    if first_visible(body) == Some('[') {
        BodyShape::List
    } else if contains_text(body, "\"events\""@) {
        BodyShape::Wrapped
    } else {
        BodyShape::Single
    }
}

/// Tells whether a character is white space.
fn space(c: char) -> (white: bool)
    ensures
        white == is_space(c),
{
    ('\u{0009}' <= c && c <= '\u{000D}') || c == '\u{0020}' || c == '\u{0085}' || c == '\u{00A0}'
        || c == '\u{1680}' || ('\u{2000}' <= c && c <= '\u{200A}') || c == '\u{2028}' || c
        == '\u{2029}' || c == '\u{202F}' || c == '\u{205F}' || c == '\u{3000}'
}

/// Tells how the body of a publish request holds its events.
pub fn publish_body_shape(body: &str) -> (shape: BodyShape)
    ensures
        shape == body_shape_of(body@),
{
    let chars = chars_of(body);
    let mut i: usize = 0;
    assert(body@.skip(0) =~= body@);
    while i < chars.len() && space(chars[i])
        invariant
            0 <= i <= chars.len(),
            chars@ == body@,
            first_visible(body@) == first_visible(body@.skip(i as int)),
        decreases chars.len() - i,
    {
        assert(body@.skip(i as int).drop_first() =~= body@.skip(i + 1));
        i = i + 1;
    }
    let list = i < chars.len() && chars[i] == '[';
    assert(list == (first_visible(body@) == Some('['))) by {
        if i < chars.len() {
            assert(body@.skip(i as int)[0] == chars@[i as int]);
        }
    }
    if list {
        BodyShape::List
    } else if contains(body, "\"events\"") {
        BodyShape::Wrapped
    } else {
        BodyShape::Single
    }
}

/// The response that tells of an error: its HTTP status, its stable code and
/// its message.
pub fn error_response(error: &Error) -> (response: (u16, ErrorResponse))
    ensures
        response.0 == error@.status_code(),
        response.1.error@ == error@.code(),
        response.1.message@ == error@.message(),
        response.1.details is None,
{
    let message = error.message();
    (error.status_code(), ErrorResponse::new(error.code(), message.as_str()))
}

/// The JSON text of an error response, given the JSON texts of its parts.
pub open spec fn error_json(
    error: Seq<char>,
    message: Seq<char>,
    details: Option<Seq<char>>,
) -> Seq<char> {
    "{\"error\":"@ + error + ",\"message\":"@ + message + match details {
        Some(d) => ",\"details\":"@ + d,
        None => Seq::empty(),
    } + "}"@
}

impl ErrorResponse {
    /// The body of the response, as JSON: `error`, `message` and, where
    /// there are any, `details`.
    pub fn to_json(&self) -> (json: String)
        ensures
            json@ == error_json(
                json_string(self.error@),
                json_string(self.message@),
                match self.details {
                    Some(d) => Some(d@),
                    None => None,
                },
            ),
    {
        let mut json = String::from_str("{\"error\":");
        json.append(json_string_of(self.error.as_str()).as_str());
        json.append(",\"message\":");
        json.append(json_string_of(self.message.as_str()).as_str());
        match &self.details {
            Some(d) => {
                json.append(",\"details\":");
                json.append(d.as_str());
            },
            None => {
                assert(json@ + Seq::<char>::empty() =~= json@);
            },
        }
        json.append("}");
        json
    }
}

} // verus!
