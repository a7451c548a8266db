//! The stream registry: creating, reading, listing and deleting streams.
//!
//! A stream is its metadata row and one counter row per partition. Creating
//! a stream writes the metadata only if no stream has the id, then sets every
//! counter to zero. Deleting a stream removes those rows and nothing else:
//! events, subscriptions, offsets and compacted state stay behind.

use crate::errors::{Error, ErrorView};
use crate::keys::{
    counter_sk, counter_sort_key, meta_sk, meta_sort_key, partition_key, partition_pk, stream_key,
    stream_pk,
};
use crate::models::{CreateStreamRequest, Stream, StreamView, Timestamp};
use crate::replies::{
    created_from_reply, created_of_reply, stream_from_reply, stream_of_reply, unexpected,
    unexpected_reply, written_from_reply, written_of_reply, ResultShape,
};
use crate::store::{
    Machine, ReplyView, RequestView, Row, RowView, Step, StepView, StoreReply, StoreRequest,
};
use vstd::prelude::*;
use vstd::string::StringExecFns;

verus! {

/// Why a stream of this shape cannot be created, if it cannot: the id must
/// not be empty, and there must be at least one partition and one hour of
/// retention.
pub open spec fn create_refusal(
    stream_id: Seq<char>,
    partition_count: u32,
    retention_hours: u32,
) -> Option<ErrorView> {
    if stream_id.len() == 0 {
        Some(ErrorView::Validation("stream_id is required"@))
    } else if partition_count < 1 {
        Some(ErrorView::Validation("partition_count must be at least 1"@))
    } else if retention_hours < 1 {
        Some(ErrorView::Validation("retention_hours must be at least 1"@))
    } else {
        None
    }
}

/// Checks a request to create a stream.
pub fn validate_create(request: &CreateStreamRequest) -> (result: Result<(), Error>)
    ensures
        match create_refusal(
            request.stream_id@,
            request.partition_count,
            request.retention_hours,
        ) {
            Some(error) => result is Err && result->Err_0@ == error,
            None => result is Ok,
        },
{
    if request.stream_id.as_str().unicode_len() == 0 {
        Err(Error::Validation(String::from_str("stream_id is required")))
    } else if request.partition_count < 1 {
        Err(Error::Validation(String::from_str("partition_count must be at least 1")))
    } else if request.retention_hours < 1 {
        Err(Error::Validation(String::from_str("retention_hours must be at least 1")))
    } else {
        Ok(())
    }
}

/// The request that reads a stream's metadata.
pub fn stream_request(stream_id: &str) -> (request: StoreRequest)
    ensures
        request@ == (RequestView::Get { pk: stream_pk(stream_id@), sk: meta_sk() }),
{
    StoreRequest::Get { pk: stream_key(stream_id), sk: meta_sort_key() }
}

/// The request that sets a partition's counter to zero.
pub fn counter_reset_request(stream_id: &str, partition: u32) -> (request: StoreRequest)
    ensures
        request@ == (RequestView::Put {
            pk: partition_pk(stream_id@, partition),
            sk: counter_sk(),
            row: RowView::Counter(0),
        }),
{
    StoreRequest::Put {
        pk: partition_key(stream_id, partition),
        sk: counter_sort_key(),
        row: Row::Counter(0),
    }
}

/// The request that removes a partition's counter.
pub fn counter_delete_request(stream_id: &str, partition: u32) -> (request: StoreRequest)
    ensures
        request@ == (RequestView::Delete {
            pk: partition_pk(stream_id@, partition),
            sk: counter_sk(),
        }),
{
    StoreRequest::Delete { pk: partition_key(stream_id, partition), sk: counter_sort_key() }
}

/// How far the creation of a stream has come.
#[derive(Debug, Clone, Copy, PartialEq, Eq, Structural)]
pub enum CreatePhase {
    /// Nothing was asked yet.
    Start,
    /// The metadata row is being written.
    Meta,
    /// The counter of this partition is being set.
    Counter(u32),
    /// The operation has ended.
    Finished,
}

/// The creation of a stream, one request at a time.
#[derive(Debug)]
pub struct CreateStream {
    stream: Stream,
    phase: CreatePhase,
}

/// The mathematical model of [`CreateStream`].
pub struct CreateStreamModel {
    pub stream: StreamView,
    pub phase: CreatePhase,
}

impl CreateStreamModel {
    /// The creation of the given stream, before its first step.
    pub open spec fn start(stream: StreamView) -> Self {
        CreateStreamModel { stream, phase: CreatePhase::Start }
    }

    /// Ends the operation with an error.
    pub open spec fn fail(self, error: ErrorView) -> (Self, StepView<StreamView>) {
        (CreateStreamModel { phase: CreatePhase::Finished, ..self }, StepView::Done(Err(error)))
    }

    /// Sets the counter of `partition`, or ends where all counters are set.
    pub open spec fn counters_from(self, partition: u32) -> (Self, StepView<StreamView>) {
        if partition < self.stream.partition_count {
            (
                CreateStreamModel { phase: CreatePhase::Counter(partition), ..self },
                StepView::Call(
                    RequestView::Put {
                        pk: partition_pk(self.stream.stream_id, partition),
                        sk: counter_sk(),
                        row: RowView::Counter(0),
                    },
                ),
            )
        } else {
            (
                CreateStreamModel { phase: CreatePhase::Finished, ..self },
                StepView::Done(Ok(self.stream)),
            )
        }
    }
}

impl Machine for CreateStreamModel {
    type Out = StreamView;

    open spec fn next(self, reply: Option<ReplyView>) -> (Self, StepView<StreamView>) {
        match (self.phase, reply) {
            (CreatePhase::Start, None) => {
                match create_refusal(
                    self.stream.stream_id,
                    self.stream.partition_count,
                    self.stream.retention_hours,
                ) {
                    Some(error) => self.fail(error),
                    None => (
                        CreateStreamModel { phase: CreatePhase::Meta, ..self },
                        StepView::Call(
                            RequestView::PutIfAbsent {
                                pk: stream_pk(self.stream.stream_id),
                                sk: meta_sk(),
                                row: RowView::Stream(self.stream),
                            },
                        ),
                    ),
                }
            },
            (CreatePhase::Meta, Some(answer)) => {
                match created_of_reply(
                    answer,
                    ErrorView::StreamAlreadyExists(self.stream.stream_id),
                ) {
                    Ok(_) => self.counters_from(0),
                    Err(error) => self.fail(error),
                }
            },
            (CreatePhase::Counter(partition), Some(answer)) => {
                match written_of_reply(answer) {
                    Ok(_) => {
                        if partition < self.stream.partition_count {
                            self.counters_from((partition + 1) as u32)
                        } else {
                            self.fail(unexpected_reply())
                        }
                    },
                    Err(error) => self.fail(error),
                }
            },
            _ => self.fail(unexpected_reply()),
        }
    }

    open spec fn budget(self) -> nat {
        match self.phase {
            CreatePhase::Start => (self.stream.partition_count + 2) as nat,
            CreatePhase::Meta => (self.stream.partition_count + 1) as nat,
            CreatePhase::Counter(partition) => if partition < self.stream.partition_count {
                (self.stream.partition_count - partition) as nat
            } else {
                0
            },
            CreatePhase::Finished => 0,
        }
    }

    proof fn lemma_budget(self, reply: Option<ReplyView>) {
    }
}

impl View for CreateStream {
    type V = CreateStreamModel;

    closed spec fn view(&self) -> CreateStreamModel {
        CreateStreamModel { stream: self.stream@, phase: self.phase }
    }
}

impl CreateStream {
    /// Starts the creation of the stream that the request asks for, with the
    /// given instant as its time of creation.
    pub fn new(request: &CreateStreamRequest, now: Timestamp) -> (operation: Self)
        ensures
            operation@ == CreateStreamModel::start(
                StreamView {
                    stream_id: request.stream_id@,
                    partition_count: request.partition_count,
                    retention_hours: request.retention_hours,
                    created_at: now,
                },
            ),
    {
        CreateStream {
            stream: Stream::created(
                request.stream_id.clone(),
                request.partition_count,
                request.retention_hours,
                now,
            ),
            phase: CreatePhase::Start,
        }
    }

    fn fail(self, error: Error) -> (after: (Self, Step<Stream>))
        ensures
            (after.0@, after.1.shape()) == self@.fail(error@),
    {
        (CreateStream { stream: self.stream, phase: CreatePhase::Finished }, Step::Done(Err(error)))
    }

    fn counters_from(self, partition: u32) -> (after: (Self, Step<Stream>))
        ensures
            (after.0@, after.1.shape()) == self@.counters_from(partition),
    {
        if partition < self.stream.partition_count {
            let request = counter_reset_request(self.stream.stream_id.as_str(), partition);
            (
                CreateStream { stream: self.stream, phase: CreatePhase::Counter(partition) },
                Step::Call(request),
            )
        } else {
            let created = self.stream.clone();
            (
                CreateStream { stream: self.stream, phase: CreatePhase::Finished },
                Step::Done(Ok(created)),
            )
        }
    }

    /// Takes one step: the first with no reply, each later one with the
    /// table's reply to the request of the step before.
    pub fn step(self, reply: Option<StoreReply>) -> (after: (Self, Step<Stream>))
        ensures
            (after.0@, after.1.shape()) == self@.next(reply.deep_view()),
    {
        match (self.phase, reply) {
            (CreatePhase::Start, None) => {
                let request = CreateStreamRequest {
                    stream_id: self.stream.stream_id.clone(),
                    partition_count: self.stream.partition_count,
                    retention_hours: self.stream.retention_hours,
                };
                match validate_create(&request) {
                    Err(error) => self.fail(error),
                    Ok(_) => {
                        let ask = StoreRequest::PutIfAbsent {
                            pk: stream_key(self.stream.stream_id.as_str()),
                            sk: meta_sort_key(),
                            row: Row::Stream(self.stream.clone()),
                        };
                        (
                            CreateStream { stream: self.stream, phase: CreatePhase::Meta },
                            Step::Call(ask),
                        )
                    },
                }
            },
            (CreatePhase::Meta, Some(answer)) => {
                let taken = Error::StreamAlreadyExists(self.stream.stream_id.clone());
                match created_from_reply(answer, taken) {
                    Ok(_) => self.counters_from(0),
                    Err(error) => self.fail(error),
                }
            },
            (CreatePhase::Counter(partition), Some(answer)) => {
                match written_from_reply(answer) {
                    Ok(_) => {
                        if partition < self.stream.partition_count {
                            self.counters_from(partition + 1)
                        } else {
                            self.fail(unexpected())
                        }
                    },
                    Err(error) => self.fail(error),
                }
            },
            _ => self.fail(unexpected()),
        }
    }
}

/// How far the deletion of a stream has come.
#[derive(Debug, Clone, Copy, PartialEq, Eq, Structural)]
pub enum DeletePhase {
    /// Nothing was asked yet.
    Start,
    /// The metadata row is being read.
    Lookup,
    /// The metadata row is being removed.
    Meta,
    /// The counter of this partition is being removed.
    Counter(u32),
    /// The operation has ended.
    Finished,
}

/// The deletion of a stream, one request at a time.
#[derive(Debug)]
pub struct DeleteStream {
    stream_id: String,
    partition_count: u32,
    phase: DeletePhase,
}

/// The mathematical model of [`DeleteStream`].
pub struct DeleteStreamModel {
    pub stream_id: Seq<char>,
    pub partition_count: u32,
    pub phase: DeletePhase,
}

impl DeleteStreamModel {
    /// The deletion of the given stream, before its first step.
    pub open spec fn start(stream_id: Seq<char>) -> Self {
        DeleteStreamModel { stream_id, partition_count: 0, phase: DeletePhase::Start }
    }

    /// Ends the operation with an error.
    pub open spec fn fail(self, error: ErrorView) -> (Self, StepView<()>) {
        (DeleteStreamModel { phase: DeletePhase::Finished, ..self }, StepView::Done(Err(error)))
    }

    /// Removes the counter of `partition`, or ends where all are removed.
    pub open spec fn counters_from(self, partition: u32) -> (Self, StepView<()>) {
        if partition < self.partition_count {
            (
                DeleteStreamModel { phase: DeletePhase::Counter(partition), ..self },
                StepView::Call(
                    RequestView::Delete {
                        pk: partition_pk(self.stream_id, partition),
                        sk: counter_sk(),
                    },
                ),
            )
        } else {
            (DeleteStreamModel { phase: DeletePhase::Finished, ..self }, StepView::Done(Ok(())))
        }
    }
}

impl Machine for DeleteStreamModel {
    type Out = ();

    open spec fn next(self, reply: Option<ReplyView>) -> (Self, StepView<()>) {
        match (self.phase, reply) {
            (DeletePhase::Start, None) => (
                DeleteStreamModel { phase: DeletePhase::Lookup, ..self },
                StepView::Call(RequestView::Get { pk: stream_pk(self.stream_id), sk: meta_sk() }),
            ),
            (DeletePhase::Lookup, Some(answer)) => {
                match stream_of_reply(answer, self.stream_id) {
                    Ok(stream) => (
                        DeleteStreamModel {
                            phase: DeletePhase::Meta,
                            partition_count: stream.partition_count,
                            ..self
                        },
                        StepView::Call(
                            RequestView::Delete { pk: stream_pk(self.stream_id), sk: meta_sk() },
                        ),
                    ),
                    Err(error) => self.fail(error),
                }
            },
            (DeletePhase::Meta, Some(answer)) => {
                match written_of_reply(answer) {
                    Ok(_) => self.counters_from(0),
                    Err(error) => self.fail(error),
                }
            },
            (DeletePhase::Counter(partition), Some(answer)) => {
                match written_of_reply(answer) {
                    Ok(_) => {
                        if partition < self.partition_count {
                            self.counters_from((partition + 1) as u32)
                        } else {
                            self.fail(unexpected_reply())
                        }
                    },
                    Err(error) => self.fail(error),
                }
            },
            _ => self.fail(unexpected_reply()),
        }
    }

    open spec fn budget(self) -> nat {
        match self.phase {
            DeletePhase::Start => (u32::MAX + 3) as nat,
            DeletePhase::Lookup => (u32::MAX + 2) as nat,
            DeletePhase::Meta => (self.partition_count + 1) as nat,
            DeletePhase::Counter(partition) => if partition < self.partition_count {
                (self.partition_count - partition) as nat
            } else {
                0
            },
            DeletePhase::Finished => 0,
        }
    }

    proof fn lemma_budget(self, reply: Option<ReplyView>) {
    }
}

impl View for DeleteStream {
    type V = DeleteStreamModel;

    closed spec fn view(&self) -> DeleteStreamModel {
        DeleteStreamModel {
            stream_id: self.stream_id@,
            partition_count: self.partition_count,
            phase: self.phase,
        }
    }
}

impl DeleteStream {
    /// Starts the deletion of a stream.
    pub fn new(stream_id: &str) -> (operation: Self)
        ensures
            operation@ == DeleteStreamModel::start(stream_id@),
    {
        DeleteStream {
            stream_id: String::from_str(stream_id),
            partition_count: 0,
            phase: DeletePhase::Start,
        }
    }

    fn fail(self, error: Error) -> (after: (Self, Step<()>))
        ensures
            (after.0@, after.1.shape()) == self@.fail(error@),
    {
        (
            DeleteStream {
                stream_id: self.stream_id,
                partition_count: self.partition_count,
                phase: DeletePhase::Finished,
            },
            Step::Done(Err(error)),
        )
    }

    fn counters_from(self, partition: u32) -> (after: (Self, Step<()>))
        ensures
            (after.0@, after.1.shape()) == self@.counters_from(partition),
    {
        if partition < self.partition_count {
            let request = counter_delete_request(self.stream_id.as_str(), partition);
            (
                DeleteStream {
                    stream_id: self.stream_id,
                    partition_count: self.partition_count,
                    phase: DeletePhase::Counter(partition),
                },
                Step::Call(request),
            )
        } else {
            (
                DeleteStream {
                    stream_id: self.stream_id,
                    partition_count: self.partition_count,
                    phase: DeletePhase::Finished,
                },
                Step::Done(Ok(())),
            )
        }
    }

    /// Takes one step: the first with no reply, each later one with the
    /// table's reply to the request of the step before.
    pub fn step(self, reply: Option<StoreReply>) -> (after: (Self, Step<()>))
        ensures
            (after.0@, after.1.shape()) == self@.next(reply.deep_view()),
    {
        match (self.phase, reply) {
            (DeletePhase::Start, None) => {
                let request = stream_request(self.stream_id.as_str());
                (
                    DeleteStream {
                        stream_id: self.stream_id,
                        partition_count: self.partition_count,
                        phase: DeletePhase::Lookup,
                    },
                    Step::Call(request),
                )
            },
            (DeletePhase::Lookup, Some(answer)) => {
                match stream_from_reply(answer, self.stream_id.as_str()) {
                    Ok(stream) => {
                        let request = StoreRequest::Delete {
                            pk: stream_key(self.stream_id.as_str()),
                            sk: meta_sort_key(),
                        };
                        (
                            DeleteStream {
                                stream_id: self.stream_id,
                                partition_count: stream.partition_count,
                                phase: DeletePhase::Meta,
                            },
                            Step::Call(request),
                        )
                    },
                    Err(error) => self.fail(error),
                }
            },
            (DeletePhase::Meta, Some(answer)) => {
                match written_from_reply(answer) {
                    Ok(_) => self.counters_from(0),
                    Err(error) => self.fail(error),
                }
            },
            (DeletePhase::Counter(partition), Some(answer)) => {
                match written_from_reply(answer) {
                    Ok(_) => {
                        if partition < self.partition_count {
                            self.counters_from(partition + 1)
                        } else {
                            self.fail(unexpected())
                        }
                    },
                    Err(error) => self.fail(error),
                }
            },
            _ => self.fail(unexpected()),
        }
    }
}

} // verus!
