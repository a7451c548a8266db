//! Reading what the table answered.
//!
//! Each function here takes the reply to one kind of request and says what
//! the log makes of it. An answer of the wrong kind is an internal error; a
//! failure of the table is a database error with the table's message.

use crate::errors::{Error, ErrorView};
use crate::models::{
    CompactedEvent, CompactedEventView, Event, EventView, Stream, StreamView, Subscription,
    SubscriptionView,
};
use crate::store::{ReplyView, Row, RowView, StoreReply};
use vstd::prelude::*;
use vstd::string::StringExecFns;

verus! {

/// The error for an answer that does not fit the request.
pub open spec fn unexpected_reply() -> ErrorView {
    ErrorView::Internal("unexpected reply"@)
}

/// Builds the error for an answer that does not fit the request.
pub fn unexpected() -> (error: Error)
    ensures
        error@ == unexpected_reply(),
{
    Error::Internal(String::from_str("unexpected reply"))
}

/// What the reply to a plain write means.
pub open spec fn written_of_reply(reply: ReplyView) -> Result<(), ErrorView> {
    match reply {
        ReplyView::Done => Ok(()),
        ReplyView::Failed(message) => Err(ErrorView::Database(message)),
        _ => Err(unexpected_reply()),
    }
}

/// Reads the reply to a plain write.
pub fn written_from_reply(reply: StoreReply) -> (result: Result<(), Error>)
    ensures
        result.deep_view_result() == written_of_reply(reply@),
{
    match reply {
        StoreReply::Done => Ok(()),
        StoreReply::Failed(message) => Err(Error::Database(message)),
        _ => Err(unexpected()),
    }
}

/// The mathematical value of a result.
pub trait ResultShape<V> {
    /// The value of the result: its `Ok` or its `Err`, each by its view.
    spec fn deep_view_result(&self) -> Result<V, ErrorView>;
}

impl<T: DeepView> ResultShape<T::V> for Result<T, Error> {
    open spec fn deep_view_result(&self) -> Result<T::V, ErrorView> {
        match self {
            Ok(value) => Ok(value.deep_view()),
            Err(error) => Err(error@),
        }
    }
}

/// What the reply to a conditional write means; `taken` is the error for a
/// key that was taken.
pub open spec fn created_of_reply(reply: ReplyView, taken: ErrorView) -> Result<(), ErrorView> {
    match reply {
        ReplyView::Done => Ok(()),
        ReplyView::ConditionFailed => Err(taken),
        ReplyView::Failed(message) => Err(ErrorView::Database(message)),
        _ => Err(unexpected_reply()),
    }
}

/// Reads the reply to a conditional write.
pub fn created_from_reply(reply: StoreReply, taken: Error) -> (result: Result<(), Error>)
    ensures
        result.deep_view_result() == created_of_reply(reply@, taken@),
{
    match reply {
        StoreReply::Done => Ok(()),
        StoreReply::ConditionFailed => Err(taken),
        StoreReply::Failed(message) => Err(Error::Database(message)),
        _ => Err(unexpected()),
    }
}

/// The stream that a read of the metadata row found.
pub open spec fn stream_of_reply(reply: ReplyView, stream_id: Seq<char>) -> Result<
    StreamView,
    ErrorView,
> {
    match reply {
        ReplyView::Item(Some(RowView::Stream(stream))) => Ok(stream),
        ReplyView::Item(Some(RowView::Unreadable(message))) => Err(
            ErrorView::DynamoSerialization(message),
        ),
        ReplyView::Item(Some(_)) => Err(ErrorView::DynamoSerialization("not a stream"@)),
        ReplyView::Item(None) => Err(ErrorView::StreamNotFound(stream_id)),
        ReplyView::Failed(message) => Err(ErrorView::Database(message)),
        _ => Err(unexpected_reply()),
    }
}

/// Reads the reply to a read of a stream's metadata row.
pub fn stream_from_reply(reply: StoreReply, stream_id: &str) -> (result: Result<Stream, Error>)
    ensures
        result.deep_view_result() == stream_of_reply(reply@, stream_id@),
{
    match reply {
        StoreReply::Item(Some(Row::Stream(stream))) => Ok(stream),
        StoreReply::Item(Some(Row::Unreadable(message))) => Err(
            Error::DynamoSerialization(message),
        ),
        StoreReply::Item(Some(_)) => Err(
            Error::DynamoSerialization(String::from_str("not a stream")),
        ),
        StoreReply::Item(None) => Err(Error::StreamNotFound(String::from_str(stream_id))),
        StoreReply::Failed(message) => Err(Error::Database(message)),
        _ => Err(unexpected()),
    }
}

/// The subscription that a read of its row found.
pub open spec fn subscription_of_reply(reply: ReplyView, subscription_id: Seq<char>) -> Result<
    SubscriptionView,
    ErrorView,
> {
    match reply {
        ReplyView::Item(Some(RowView::Subscription(subscription))) => Ok(subscription),
        ReplyView::Item(Some(RowView::Unreadable(message))) => Err(
            ErrorView::DynamoSerialization(message),
        ),
        ReplyView::Item(Some(_)) => Err(ErrorView::DynamoSerialization("not a subscription"@)),
        ReplyView::Item(None) => Err(ErrorView::SubscriptionNotFound(subscription_id)),
        ReplyView::Failed(message) => Err(ErrorView::Database(message)),
        _ => Err(unexpected_reply()),
    }
}

/// Reads the reply to a read of a subscription's row.
pub fn subscription_from_reply(reply: StoreReply, subscription_id: &str) -> (result: Result<
    Subscription,
    Error,
>)
    ensures
        result.deep_view_result() == subscription_of_reply(reply@, subscription_id@),
{
    match reply {
        StoreReply::Item(Some(Row::Subscription(subscription))) => Ok(subscription),
        StoreReply::Item(Some(Row::Unreadable(message))) => Err(
            Error::DynamoSerialization(message),
        ),
        StoreReply::Item(Some(_)) => Err(
            Error::DynamoSerialization(String::from_str("not a subscription")),
        ),
        StoreReply::Item(None) => Err(
            Error::SubscriptionNotFound(String::from_str(subscription_id)),
        ),
        StoreReply::Failed(message) => Err(Error::Database(message)),
        _ => Err(unexpected()),
    }
}

/// The committed offset that a read of an offset row found. A subscription
/// without that row is not known.
pub open spec fn offset_of_reply(reply: ReplyView, subscription_id: Seq<char>) -> Result<
    u64,
    ErrorView,
> {
    match reply {
        ReplyView::Item(Some(RowView::Offset { offset, committed_at })) => Ok(offset),
        ReplyView::Item(Some(_)) => Err(ErrorView::Internal("Invalid offset type"@)),
        ReplyView::Item(None) => Err(ErrorView::SubscriptionNotFound(subscription_id)),
        ReplyView::Failed(message) => Err(ErrorView::Database(message)),
        _ => Err(unexpected_reply()),
    }
}

/// Reads the reply to a read of an offset row.
pub fn offset_from_reply(reply: StoreReply, subscription_id: &str) -> (result: Result<u64, Error>)
    ensures
        result.deep_view_result() == offset_of_reply(reply@, subscription_id@),
{
    match reply {
        StoreReply::Item(Some(Row::Offset { offset, committed_at })) => Ok(offset),
        StoreReply::Item(Some(_)) => Err(Error::Internal(String::from_str("Invalid offset type"))),
        StoreReply::Item(None) => Err(
            Error::SubscriptionNotFound(String::from_str(subscription_id)),
        ),
        StoreReply::Failed(message) => Err(Error::Database(message)),
        _ => Err(unexpected()),
    }
}

/// The offset from which a poll reads a partition, as a read of the offset
/// row tells it: the committed offset, or zero where no offset is committed.
pub open spec fn committed_of_reply(reply: ReplyView) -> Result<u64, ErrorView> {
    match reply {
        ReplyView::Item(Some(RowView::Offset { offset, committed_at })) => Ok(offset),
        ReplyView::Item(Some(_)) => Err(ErrorView::Internal("Invalid offset type"@)),
        ReplyView::Item(None) => Ok(0),
        ReplyView::Failed(message) => Err(ErrorView::Database(message)),
        _ => Err(unexpected_reply()),
    }
}

/// Reads the reply to a poll's read of an offset row.
pub fn committed_from_reply(reply: StoreReply) -> (result: Result<u64, Error>)
    ensures
        result.deep_view_result() == committed_of_reply(reply@),
{
    match reply {
        StoreReply::Item(Some(Row::Offset { offset, committed_at })) => Ok(offset),
        StoreReply::Item(Some(_)) => Err(Error::Internal(String::from_str("Invalid offset type"))),
        StoreReply::Item(None) => Ok(0),
        StoreReply::Failed(message) => Err(Error::Database(message)),
        _ => Err(unexpected()),
    }
}

/// The sequence number that an increment of a counter gave out.
pub open spec fn sequence_of_reply(reply: ReplyView) -> Result<u64, ErrorView> {
    match reply {
        ReplyView::Item(Some(RowView::Counter(sequence))) => Ok(sequence),
        ReplyView::Item(Some(_)) => Err(ErrorView::Internal("Invalid sequence type"@)),
        ReplyView::Item(None) => Err(ErrorView::Internal("No sequence attribute"@)),
        ReplyView::Failed(message) => Err(ErrorView::Database(message)),
        _ => Err(unexpected_reply()),
    }
}

/// Reads the reply to an increment of a counter.
pub fn sequence_from_reply(reply: StoreReply) -> (result: Result<u64, Error>)
    ensures
        result.deep_view_result() == sequence_of_reply(reply@),
{
    match reply {
        StoreReply::Item(Some(Row::Counter(sequence))) => Ok(sequence),
        StoreReply::Item(Some(_)) => Err(
            Error::Internal(String::from_str("Invalid sequence type")),
        ),
        StoreReply::Item(None) => Err(Error::Internal(String::from_str("No sequence attribute"))),
        StoreReply::Failed(message) => Err(Error::Database(message)),
        _ => Err(unexpected()),
    }
}

/// The last sequence number of a partition, as a read of its counter row
/// tells it. A partition without a counter has given out none.
pub open spec fn latest_of_reply(reply: ReplyView) -> Result<u64, ErrorView> {
    match reply {
        ReplyView::Item(Some(RowView::Counter(sequence))) => Ok(sequence),
        ReplyView::Item(Some(_)) => Err(ErrorView::Internal("Invalid sequence type"@)),
        ReplyView::Item(None) => Ok(0),
        ReplyView::Failed(message) => Err(ErrorView::Database(message)),
        _ => Err(unexpected_reply()),
    }
}

/// Reads the reply to a read of a counter row.
pub fn latest_from_reply(reply: StoreReply) -> (result: Result<u64, Error>)
    ensures
        result.deep_view_result() == latest_of_reply(reply@),
{
    match reply {
        StoreReply::Item(Some(Row::Counter(sequence))) => Ok(sequence),
        StoreReply::Item(Some(_)) => Err(
            Error::Internal(String::from_str("Invalid sequence type")),
        ),
        StoreReply::Item(None) => Ok(0),
        StoreReply::Failed(message) => Err(Error::Database(message)),
        _ => Err(unexpected()),
    }
}

/// The compacted state that a read of its row found, if there is one.
pub open spec fn compacted_of_reply(reply: ReplyView) -> Result<
    Option<CompactedEventView>,
    ErrorView,
> {
    match reply {
        ReplyView::Item(Some(RowView::Compacted(state))) => Ok(Some(state)),
        ReplyView::Item(Some(RowView::Unreadable(message))) => Err(
            ErrorView::DynamoSerialization(message),
        ),
        ReplyView::Item(Some(_)) => Err(ErrorView::DynamoSerialization("not compacted state"@)),
        ReplyView::Item(None) => Ok(None),
        ReplyView::Failed(message) => Err(ErrorView::Database(message)),
        _ => Err(unexpected_reply()),
    }
}

/// Reads the reply to a read of a compacted row.
pub fn compacted_from_reply(reply: StoreReply) -> (result: Result<Option<CompactedEvent>, Error>)
    ensures
        result.deep_view_result() == compacted_of_reply(reply@),
{
    match reply {
        StoreReply::Item(Some(Row::Compacted(state))) => Ok(Some(state)),
        StoreReply::Item(Some(Row::Unreadable(message))) => Err(
            Error::DynamoSerialization(message),
        ),
        StoreReply::Item(Some(_)) => Err(
            Error::DynamoSerialization(String::from_str("not compacted state")),
        ),
        StoreReply::Item(None) => Ok(None),
        StoreReply::Failed(message) => Err(Error::Database(message)),
        _ => Err(unexpected()),
    }
}

/// The streams among some rows, in the order of the rows.
pub open spec fn streams_among(rows: Seq<RowView>) -> Seq<StreamView>
    decreases rows.len(),
{
    if rows.len() == 0 {
        Seq::empty()
    } else {
        match rows.last() {
            RowView::Stream(stream) => streams_among(rows.drop_last()).push(stream),
            _ => streams_among(rows.drop_last()),
        }
    }
}

/// The events among some rows, in the order of the rows.
pub open spec fn events_among(rows: Seq<RowView>) -> Seq<EventView>
    decreases rows.len(),
{
    if rows.len() == 0 {
        Seq::empty()
    } else {
        match rows.last() {
            RowView::Event(event) => events_among(rows.drop_last()).push(event),
            _ => events_among(rows.drop_last()),
        }
    }
}

/// The compacted states among some rows, in the order of the rows.
pub open spec fn compacted_among(rows: Seq<RowView>) -> Seq<CompactedEventView>
    decreases rows.len(),
{
    if rows.len() == 0 {
        Seq::empty()
    } else {
        match rows.last() {
            RowView::Compacted(state) => compacted_among(rows.drop_last()).push(state),
            _ => compacted_among(rows.drop_last()),
        }
    }
}

/// The streams that a scan found. Rows that are no streams are passed over.
pub open spec fn streams_of_reply(reply: ReplyView) -> Result<Seq<StreamView>, ErrorView> {
    match reply {
        ReplyView::Rows(rows) => Ok(streams_among(rows)),
        ReplyView::Failed(message) => Err(ErrorView::Database(message)),
        _ => Err(unexpected_reply()),
    }
}

/// The events that a query found. Rows that are no events are passed over.
pub open spec fn events_of_reply(reply: ReplyView) -> Result<Seq<EventView>, ErrorView> {
    match reply {
        ReplyView::Rows(rows) => Ok(events_among(rows)),
        ReplyView::Failed(message) => Err(ErrorView::Database(message)),
        _ => Err(unexpected_reply()),
    }
}

/// The compacted states that a query found. Other rows are passed over.
pub open spec fn compacted_list_of_reply(reply: ReplyView) -> Result<
    Seq<CompactedEventView>,
    ErrorView,
> {
    match reply {
        ReplyView::Rows(rows) => Ok(compacted_among(rows)),
        ReplyView::Failed(message) => Err(ErrorView::Database(message)),
        _ => Err(unexpected_reply()),
    }
}

/// Reads the reply to a scan for streams.
pub fn streams_from_reply(reply: StoreReply) -> (result: Result<Vec<Stream>, Error>)
    ensures
        result.deep_view_result() == streams_of_reply(reply@),
{
    match reply {
        StoreReply::Rows(rows) => {
            let ghost all = rows.deep_view();
            let mut kept: Vec<Stream> = Vec::new();
            let mut i: usize = 0;
            while i < rows.len()
                invariant
                    0 <= i <= rows.len(),
                    all == rows.deep_view(),
                    kept.deep_view() =~= streams_among(all.take(i as int)),
                decreases rows.len() - i,
            {
                assert(all.take(i + 1).drop_last() =~= all.take(i as int));
                assert(all.take(i + 1).last() == rows[i as int]@);
                let ghost had = kept.deep_view();
                match &rows[i] {
                    Row::Stream(stream) => {
                        kept.push(stream.clone());
                        assert(kept.deep_view() =~= had.push(stream@));
                    },
                    _ => {},
                }
                i = i + 1;
            }
            assert(all.take(rows.len() as int) =~= all);
            Ok(kept)
        },
        StoreReply::Failed(message) => Err(Error::Database(message)),
        _ => Err(unexpected()),
    }
}

/// Reads the reply to a query for events.
pub fn events_from_reply(reply: StoreReply) -> (result: Result<Vec<Event>, Error>)
    ensures
        result.deep_view_result() == events_of_reply(reply@),
{
    match reply {
        StoreReply::Rows(rows) => {
            let ghost all = rows.deep_view();
            let mut kept: Vec<Event> = Vec::new();
            let mut i: usize = 0;
            while i < rows.len()
                invariant
                    0 <= i <= rows.len(),
                    all == rows.deep_view(),
                    kept.deep_view() =~= events_among(all.take(i as int)),
                decreases rows.len() - i,
            {
                assert(all.take(i + 1).drop_last() =~= all.take(i as int));
                assert(all.take(i + 1).last() == rows[i as int]@);
                let ghost had = kept.deep_view();
                match &rows[i] {
                    Row::Event(event) => {
                        kept.push(event.clone());
                        assert(kept.deep_view() =~= had.push(event@));
                    },
                    _ => {},
                }
                i = i + 1;
            }
            assert(all.take(rows.len() as int) =~= all);
            Ok(kept)
        },
        StoreReply::Failed(message) => Err(Error::Database(message)),
        _ => Err(unexpected()),
    }
}

/// Reads the reply to a query for compacted state.
pub fn compacted_list_from_reply(reply: StoreReply) -> (result: Result<
    Vec<CompactedEvent>,
    Error,
>)
    ensures
        result.deep_view_result() == compacted_list_of_reply(reply@),
{
    match reply {
        StoreReply::Rows(rows) => {
            let ghost all = rows.deep_view();
            let mut kept: Vec<CompactedEvent> = Vec::new();
            let mut i: usize = 0;
            while i < rows.len()
                invariant
                    0 <= i <= rows.len(),
                    all == rows.deep_view(),
                    kept.deep_view() =~= compacted_among(all.take(i as int)),
                decreases rows.len() - i,
            {
                assert(all.take(i + 1).drop_last() =~= all.take(i as int));
                assert(all.take(i + 1).last() == rows[i as int]@);
                let ghost had = kept.deep_view();
                match &rows[i] {
                    Row::Compacted(state) => {
                        kept.push(state.clone());
                        assert(kept.deep_view() =~= had.push(state@));
                    },
                    _ => {},
                }
                i = i + 1;
            }
            assert(all.take(rows.len() as int) =~= all);
            Ok(kept)
        },
        StoreReply::Failed(message) => Err(Error::Database(message)),
        _ => Err(unexpected()),
    }
}

} // verus!
