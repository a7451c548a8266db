//! The failures that the log reports, each with a stable code and the HTTP
//! status it maps to.

use vstd::prelude::*;
use vstd::string::StringExecFns;

verus! {

/// What went wrong in an operation of the log.
#[derive(Debug, PartialEq, Eq)]
pub enum Error {
    /// No stream has this id.
    StreamNotFound(String),
    /// A stream with this id is already there.
    StreamAlreadyExists(String),
    /// No subscription has this id.
    SubscriptionNotFound(String),
    /// A subscription with this id is already there.
    SubscriptionAlreadyExists(String),
    /// The stream id is not well formed.
    InvalidStreamId(String),
    /// The subscription id is not well formed.
    InvalidSubscriptionId(String),
    /// The cursor could not be decoded.
    InvalidCursor(String),
    /// The event key is not well formed.
    InvalidEventKey(String),
    /// Some other input was refused.
    Validation(String),
    /// The backing table failed.
    Database(String),
    /// A JSON payload could not be decoded.
    Serialization(String),
    /// A row of the table could not be decoded.
    DynamoSerialization(String),
    /// Something that should always hold did not.
    Internal(String),
}

/// The mathematical value of an [`Error`].
pub enum ErrorView {
    StreamNotFound(Seq<char>),
    StreamAlreadyExists(Seq<char>),
    SubscriptionNotFound(Seq<char>),
    SubscriptionAlreadyExists(Seq<char>),
    InvalidStreamId(Seq<char>),
    InvalidSubscriptionId(Seq<char>),
    InvalidCursor(Seq<char>),
    InvalidEventKey(Seq<char>),
    Validation(Seq<char>),
    Database(Seq<char>),
    Serialization(Seq<char>),
    DynamoSerialization(Seq<char>),
    Internal(Seq<char>),
}

impl ErrorView {
    /// The text that the error carries.
    pub open spec fn detail(self) -> Seq<char> {
        match self {
            ErrorView::StreamNotFound(s) => s,
            ErrorView::StreamAlreadyExists(s) => s,
            ErrorView::SubscriptionNotFound(s) => s,
            ErrorView::SubscriptionAlreadyExists(s) => s,
            ErrorView::InvalidStreamId(s) => s,
            ErrorView::InvalidSubscriptionId(s) => s,
            ErrorView::InvalidCursor(s) => s,
            ErrorView::InvalidEventKey(s) => s,
            ErrorView::Validation(s) => s,
            ErrorView::Database(s) => s,
            ErrorView::Serialization(s) => s,
            ErrorView::DynamoSerialization(s) => s,
            ErrorView::Internal(s) => s,
        }
    }

    /// The stable code by which clients tell errors apart.
    pub open spec fn code(self) -> Seq<char> {
        match self {
            ErrorView::StreamNotFound(_) => "stream_not_found"@,
            ErrorView::StreamAlreadyExists(_) => "stream_already_exists"@,
            ErrorView::SubscriptionNotFound(_) => "subscription_not_found"@,
            ErrorView::SubscriptionAlreadyExists(_) => "subscription_already_exists"@,
            ErrorView::InvalidStreamId(_) => "invalid_stream_id"@,
            ErrorView::InvalidSubscriptionId(_) => "invalid_subscription_id"@,
            ErrorView::InvalidCursor(_) => "invalid_cursor"@,
            ErrorView::InvalidEventKey(_) => "invalid_event_key"@,
            ErrorView::Validation(_) => "validation_error"@,
            ErrorView::Database(_) => "database_error"@,
            ErrorView::Serialization(_) => "serialization_error"@,
            ErrorView::DynamoSerialization(_) => "serialization_error"@,
            ErrorView::Internal(_) => "internal_error"@,
        }
    }

    /// The HTTP status that the error maps to.
    pub open spec fn status_code(self) -> u16 {
        match self {
            ErrorView::StreamNotFound(_) => 404,
            ErrorView::StreamAlreadyExists(_) => 409,
            ErrorView::SubscriptionNotFound(_) => 404,
            ErrorView::SubscriptionAlreadyExists(_) => 409,
            ErrorView::InvalidStreamId(_) => 400,
            ErrorView::InvalidSubscriptionId(_) => 400,
            ErrorView::InvalidCursor(_) => 400,
            ErrorView::InvalidEventKey(_) => 400,
            ErrorView::Validation(_) => 400,
            ErrorView::Database(_) => 500,
            ErrorView::Serialization(_) => 400,
            ErrorView::DynamoSerialization(_) => 500,
            ErrorView::Internal(_) => 500,
        }
    }

    /// The words that come before the detail in the error's message.
    pub open spec fn prefix(self) -> Seq<char> {
        match self {
            ErrorView::StreamNotFound(_) => "Stream not found: "@,
            ErrorView::StreamAlreadyExists(_) => "Stream already exists: "@,
            ErrorView::SubscriptionNotFound(_) => "Subscription not found: "@,
            ErrorView::SubscriptionAlreadyExists(_) => "Subscription already exists: "@,
            ErrorView::InvalidStreamId(_) => "Invalid stream ID: "@,
            ErrorView::InvalidSubscriptionId(_) => "Invalid subscription ID: "@,
            ErrorView::InvalidCursor(_) => "Invalid cursor: "@,
            ErrorView::InvalidEventKey(_) => "Invalid event key: "@,
            ErrorView::Validation(_) => "Validation error: "@,
            ErrorView::Database(_) => "Database error: "@,
            ErrorView::Serialization(_) => "Serialization error: "@,
            ErrorView::DynamoSerialization(_) => "DynamoDB serialization error: "@,
            ErrorView::Internal(_) => "Internal error: "@,
        }
    }

    /// The message shown to people: the prefix, then the detail.
    pub open spec fn message(self) -> Seq<char> {
        self.prefix() + self.detail()
    }
}

impl View for Error {
    type V = ErrorView;

    open spec fn view(&self) -> ErrorView {
        match self {
            Error::StreamNotFound(s) => ErrorView::StreamNotFound(s@),
            Error::StreamAlreadyExists(s) => ErrorView::StreamAlreadyExists(s@),
            Error::SubscriptionNotFound(s) => ErrorView::SubscriptionNotFound(s@),
            Error::SubscriptionAlreadyExists(s) => ErrorView::SubscriptionAlreadyExists(s@),
            Error::InvalidStreamId(s) => ErrorView::InvalidStreamId(s@),
            Error::InvalidSubscriptionId(s) => ErrorView::InvalidSubscriptionId(s@),
            Error::InvalidCursor(s) => ErrorView::InvalidCursor(s@),
            Error::InvalidEventKey(s) => ErrorView::InvalidEventKey(s@),
            Error::Validation(s) => ErrorView::Validation(s@),
            Error::Database(s) => ErrorView::Database(s@),
            Error::Serialization(s) => ErrorView::Serialization(s@),
            Error::DynamoSerialization(s) => ErrorView::DynamoSerialization(s@),
            Error::Internal(s) => ErrorView::Internal(s@),
        }
    }
}

impl DeepView for Error {
    type V = ErrorView;

    open spec fn deep_view(&self) -> ErrorView {
        self@
    }
}

impl Clone for Error {
    fn clone(&self) -> (copy: Self)
        ensures
            copy@ == self@,
    {
        match self {
            Error::StreamNotFound(s) => Error::StreamNotFound(s.clone()),
            Error::StreamAlreadyExists(s) => Error::StreamAlreadyExists(s.clone()),
            Error::SubscriptionNotFound(s) => Error::SubscriptionNotFound(s.clone()),
            Error::SubscriptionAlreadyExists(s) => Error::SubscriptionAlreadyExists(s.clone()),
            Error::InvalidStreamId(s) => Error::InvalidStreamId(s.clone()),
            Error::InvalidSubscriptionId(s) => Error::InvalidSubscriptionId(s.clone()),
            Error::InvalidCursor(s) => Error::InvalidCursor(s.clone()),
            Error::InvalidEventKey(s) => Error::InvalidEventKey(s.clone()),
            Error::Validation(s) => Error::Validation(s.clone()),
            Error::Database(s) => Error::Database(s.clone()),
            Error::Serialization(s) => Error::Serialization(s.clone()),
            Error::DynamoSerialization(s) => Error::DynamoSerialization(s.clone()),
            Error::Internal(s) => Error::Internal(s.clone()),
        }
    }
}

impl Error {
    /// The error code for API responses.
    pub fn code(&self) -> (code: &'static str)
        ensures
            code@ == self@.code(),
    {
        match self {
            Error::StreamNotFound(_) => "stream_not_found",
            Error::StreamAlreadyExists(_) => "stream_already_exists",
            Error::SubscriptionNotFound(_) => "subscription_not_found",
            Error::SubscriptionAlreadyExists(_) => "subscription_already_exists",
            Error::InvalidStreamId(_) => "invalid_stream_id",
            Error::InvalidSubscriptionId(_) => "invalid_subscription_id",
            Error::InvalidCursor(_) => "invalid_cursor",
            Error::InvalidEventKey(_) => "invalid_event_key",
            Error::Validation(_) => "validation_error",
            Error::Database(_) => "database_error",
            Error::Serialization(_) => "serialization_error",
            Error::DynamoSerialization(_) => "serialization_error",
            Error::Internal(_) => "internal_error",
        }
    }

    /// The HTTP status code for this error.
    pub fn status_code(&self) -> (status: u16)
        ensures
            status == self@.status_code(),
            status == 400 || status == 404 || status == 409 || status == 500,
    {
        match self {
            Error::StreamNotFound(_) => 404,
            Error::StreamAlreadyExists(_) => 409,
            Error::SubscriptionNotFound(_) => 404,
            Error::SubscriptionAlreadyExists(_) => 409,
            Error::InvalidStreamId(_) => 400,
            Error::InvalidSubscriptionId(_) => 400,
            Error::InvalidCursor(_) => 400,
            Error::InvalidEventKey(_) => 400,
            Error::Validation(_) => 400,
            Error::Database(_) => 500,
            Error::Serialization(_) => 400,
            Error::DynamoSerialization(_) => 500,
            Error::Internal(_) => 500,
        }
    }

    /// The text that the error carries.
    pub fn detail(&self) -> (detail: &String)
        ensures
            detail@ == self@.detail(),
    {
        match self {
            Error::StreamNotFound(s) => s,
            Error::StreamAlreadyExists(s) => s,
            Error::SubscriptionNotFound(s) => s,
            Error::SubscriptionAlreadyExists(s) => s,
            Error::InvalidStreamId(s) => s,
            Error::InvalidSubscriptionId(s) => s,
            Error::InvalidCursor(s) => s,
            Error::InvalidEventKey(s) => s,
            Error::Validation(s) => s,
            Error::Database(s) => s,
            Error::Serialization(s) => s,
            Error::DynamoSerialization(s) => s,
            Error::Internal(s) => s,
        }
    }

    /// The message shown to people, such as `Stream not found: orders`.
    pub fn message(&self) -> (text: String)
        ensures
            text@ == self@.message(),
    {
        let prefix: &'static str = match self {
            Error::StreamNotFound(_) => "Stream not found: ",
            Error::StreamAlreadyExists(_) => "Stream already exists: ",
            Error::SubscriptionNotFound(_) => "Subscription not found: ",
            Error::SubscriptionAlreadyExists(_) => "Subscription already exists: ",
            Error::InvalidStreamId(_) => "Invalid stream ID: ",
            Error::InvalidSubscriptionId(_) => "Invalid subscription ID: ",
            Error::InvalidCursor(_) => "Invalid cursor: ",
            Error::InvalidEventKey(_) => "Invalid event key: ",
            Error::Validation(_) => "Validation error: ",
            Error::Database(_) => "Database error: ",
            Error::Serialization(_) => "Serialization error: ",
            Error::DynamoSerialization(_) => "DynamoDB serialization error: ",
            Error::Internal(_) => "Internal error: ",
        };
        let mut text = String::from_str(prefix);
        text.append(self.detail().as_str());
        text
    }
}

} // verus!
