//! The append path: publishing events to a stream.
//!
//! Events are appended in the order given. For each event the partition is
//! chosen by its key, the partition's counter is raised by one in a single
//! step of the table, and the event is written under the sequence number
//! that came back. A batch is not atomic: events written before a failure
//! stay written. All events of one call carry the same timestamp.

use crate::errors::{Error, ErrorView};
use crate::keys::{
    counter_sk, counter_sort_key, meta_sk, partition_key, partition_pk, sequence_sk,
    sequence_sort_key, stream_pk,
};
use crate::models::{
    Event, EventView, PublishedEvent, PublishedEventView, PublishEvent, PublishEventView, Timestamp,
};
use crate::partitioner::{partition_of_key, Partitioner};
use crate::registry::stream_request;
use crate::replies::{
    sequence_from_reply, sequence_of_reply, stream_from_reply, stream_of_reply, unexpected,
    unexpected_reply, written_from_reply, written_of_reply, ResultShape,
};
use crate::store::{
    Machine, ReplyView, RequestView, Row, RowView, Step, StepView, StoreReply, StoreRequest,
};
use vstd::prelude::*;
use vstd::string::StringExecFns;

verus! {

/// Why one event cannot be published, if it cannot: its key and its type
/// must not be empty.
pub open spec fn event_refusal(event: PublishEventView) -> Option<ErrorView> {
    if event.key.len() == 0 {
        Some(ErrorView::InvalidEventKey("event key is required"@))
    } else if event.event_type.len() == 0 {
        Some(ErrorView::Validation("event type is required"@))
    } else {
        None
    }
}

/// The refusal of the first event that cannot be published, if there is one.
pub open spec fn first_refusal(events: Seq<PublishEventView>) -> Option<ErrorView>
    decreases events.len(),
{
    if events.len() == 0 {
        None
    } else {
        match first_refusal(events.drop_last()) {
            Some(error) => Some(error),
            None => event_refusal(events.last()),
        }
    }
}

/// Why a batch cannot be published, if it cannot: it must not be empty, and
/// none of its events may be refused.
pub open spec fn publish_refusal(events: Seq<PublishEventView>) -> Option<ErrorView> {
    if events.len() == 0 {
        Some(ErrorView::Validation("No events provided"@))
    } else {
        first_refusal(events)
    }
}

/// Where the first events of a batch hold one that is refused, the batch is
/// refused for the same reason.
pub proof fn lemma_first_refusal_prefix(events: Seq<PublishEventView>, k: int)
    requires
        0 <= k <= events.len(),
        first_refusal(events.take(k)) is Some,
    ensures
        first_refusal(events) == first_refusal(events.take(k)),
    decreases events.len() - k,
{
    if k < events.len() {
        assert(events.take(k + 1).drop_last() =~= events.take(k));
        lemma_first_refusal_prefix(events, k + 1);
    } else {
        assert(events.take(k) =~= events);
    }
}

/// Checks a batch of events before anything is asked of the table.
pub fn validate_events(events: &Vec<PublishEvent>) -> (result: Result<(), Error>)
    ensures
        match publish_refusal(events.deep_view()) {
            Some(error) => result is Err && result->Err_0@ == error,
            None => result is Ok,
        },
{
    if events.len() == 0 {
        return Err(Error::Validation(String::from_str("No events provided")));
    }
    let ghost all = events.deep_view();
    let mut i: usize = 0;
    while i < events.len()
        invariant
            0 <= i <= events.len(),
            all == events.deep_view(),
            first_refusal(all.take(i as int)) is None,
        decreases events.len() - i,
    {
        assert(all.take(i + 1).drop_last() =~= all.take(i as int));
        assert(all.take(i + 1).last() == events[i as int]@);
        if events[i].key.as_str().unicode_len() == 0 {
            proof {
                lemma_first_refusal_prefix(all, i + 1);
            }
            return Err(Error::InvalidEventKey(String::from_str("event key is required")));
        }
        if events[i].event_type.as_str().unicode_len() == 0 {
            proof {
                lemma_first_refusal_prefix(all, i + 1);
            }
            return Err(Error::Validation(String::from_str("event type is required")));
        }
        i = i + 1;
    }
    assert(all.take(events.len() as int) =~= all);
    Ok(())
}

/// How far a publish has come.
#[derive(Debug, Clone, Copy, PartialEq, Eq, Structural)]
pub enum PublishPhase {
    /// Nothing was asked yet.
    Start,
    /// The stream's metadata is being read.
    Lookup,
    /// A sequence number is being taken for the event at this place.
    Allocating(usize),
    /// The event at this place is being written, in this partition and with
    /// this sequence number.
    Writing(usize, u32, u64),
    /// The operation has ended.
    Finished,
}

/// The publishing of a batch of events, one request at a time.
#[derive(Debug)]
pub struct Publish {
    stream_id: String,
    events: Vec<PublishEvent>,
    now: Timestamp,
    partition_count: u32,
    published: Vec<PublishedEvent>,
    phase: PublishPhase,
}

/// The mathematical model of [`Publish`].
pub struct PublishModel {
    pub stream_id: Seq<char>,
    pub events: Seq<PublishEventView>,
    pub now: Timestamp,
    pub partition_count: u32,
    pub published: Seq<PublishedEventView>,
    pub phase: PublishPhase,
}

impl PublishModel {
    /// The publishing of `events` to a stream at the instant `now`, before
    /// its first step.
    pub open spec fn start(
        stream_id: Seq<char>,
        events: Seq<PublishEventView>,
        now: Timestamp,
    ) -> Self {
        PublishModel {
            stream_id,
            events,
            now,
            partition_count: 0,
            published: Seq::empty(),
            phase: PublishPhase::Start,
        }
    }

    /// Ends the operation with an error.
    pub open spec fn fail(self, error: ErrorView) -> (Self, StepView<Seq<PublishedEventView>>) {
        (PublishModel { phase: PublishPhase::Finished, ..self }, StepView::Done(Err(error)))
    }

    /// The partition of the event at place `i`.
    pub open spec fn partition_at(self, i: int) -> u32 {
        partition_of_key(self.events[i].key, self.partition_count) as u32
    }

    /// The row of the event at place `i`, stored with the given sequence
    /// number.
    pub open spec fn event_at(self, i: int, partition: u32, sequence: u64) -> EventView {
        EventView {
            stream_id: self.stream_id,
            partition,
            sequence,
            key: self.events[i].key,
            event_type: self.events[i].event_type,
            data: self.events[i].data,
            timestamp: self.now,
        }
    }

    /// What the caller is told of the event at place `i`.
    pub open spec fn published_at(
        self,
        i: int,
        partition: u32,
        sequence: u64,
    ) -> PublishedEventView {
        PublishedEventView {
            stream_id: self.stream_id,
            partition,
            sequence,
            key: self.events[i].key,
            timestamp: self.now,
        }
    }

    /// Takes a sequence number for the event at place `i`, or ends where all
    /// events are written.
    pub open spec fn allocate(self, i: usize) -> (Self, StepView<Seq<PublishedEventView>>) {
        if i < self.events.len() {
            (
                PublishModel { phase: PublishPhase::Allocating(i), ..self },
                StepView::Call(
                    RequestView::Increment {
                        pk: partition_pk(self.stream_id, self.partition_at(i as int)),
                        sk: counter_sk(),
                    },
                ),
            )
        } else {
            (
                PublishModel { phase: PublishPhase::Finished, ..self },
                StepView::Done(Ok(self.published)),
            )
        }
    }
}

impl Machine for PublishModel {
    type Out = Seq<PublishedEventView>;

    open spec fn next(self, reply: Option<ReplyView>) -> (Self, StepView<Seq<PublishedEventView>>) {
        match (self.phase, reply) {
            (PublishPhase::Start, None) => {
                match publish_refusal(self.events) {
                    Some(error) => self.fail(error),
                    None => (
                        PublishModel { phase: PublishPhase::Lookup, ..self },
                        StepView::Call(
                            RequestView::Get { pk: stream_pk(self.stream_id), sk: meta_sk() },
                        ),
                    ),
                }
            },
            (PublishPhase::Lookup, Some(answer)) => {
                match stream_of_reply(answer, self.stream_id) {
                    Ok(stream) => {
                        if stream.partition_count == 0 {
                            self.fail(ErrorView::Internal("stream has no partitions"@))
                        } else {
                            PublishModel {
                                partition_count: stream.partition_count,
                                ..self
                            }.allocate(0)
                        }
                    },
                    Err(error) => self.fail(error),
                }
            },
            (PublishPhase::Allocating(i), Some(answer)) => {
                if i < self.events.len() && self.partition_count > 0 {
                    match sequence_of_reply(answer) {
                        Ok(sequence) => {
                            let partition = self.partition_at(i as int);
                            (
                                PublishModel {
                                    phase: PublishPhase::Writing(i, partition, sequence),
                                    ..self
                                },
                                StepView::Call(
                                    RequestView::Put {
                                        pk: partition_pk(self.stream_id, partition),
                                        sk: sequence_sk(sequence),
                                        row: RowView::Event(
                                            self.event_at(i as int, partition, sequence),
                                        ),
                                    },
                                ),
                            )
                        },
                        Err(error) => self.fail(error),
                    }
                } else {
                    self.fail(unexpected_reply())
                }
            },
            (PublishPhase::Writing(i, partition, sequence), Some(answer)) => {
                if i < self.events.len() && i < usize::MAX && self.partition_count > 0 {
                    match written_of_reply(answer) {
                        Ok(_) => PublishModel {
                            published: self.published.push(
                                self.published_at(i as int, partition, sequence),
                            ),
                            ..self
                        }.allocate((i + 1) as usize),
                        Err(error) => self.fail(error),
                    }
                } else {
                    self.fail(unexpected_reply())
                }
            },
            _ => self.fail(unexpected_reply()),
        }
    }

    open spec fn budget(self) -> nat {
        match self.phase {
            PublishPhase::Start => 2 * self.events.len() + 2,
            PublishPhase::Lookup => 2 * self.events.len() + 1,
            PublishPhase::Allocating(i) => if i < self.events.len() {
                (2 * (self.events.len() - i)) as nat
            } else {
                0
            },
            PublishPhase::Writing(i, _, _) => if i < self.events.len() {
                (2 * (self.events.len() - i) - 1) as nat
            } else {
                0
            },
            PublishPhase::Finished => 0,
        }
    }

    proof fn lemma_budget(self, reply: Option<ReplyView>) {
    }
}

impl View for Publish {
    type V = PublishModel;

    closed spec fn view(&self) -> PublishModel {
        PublishModel {
            stream_id: self.stream_id@,
            events: self.events.deep_view(),
            now: self.now,
            partition_count: self.partition_count,
            published: self.published.deep_view(),
            phase: self.phase,
        }
    }
}

impl Publish {
    /// Starts the publishing of `events` to a stream; `now` becomes the
    /// timestamp of each of them.
    pub fn new(stream_id: &str, events: Vec<PublishEvent>, now: Timestamp) -> (operation: Self)
        ensures
            operation@ == PublishModel::start(stream_id@, events.deep_view(), now),
    {
        let operation = Publish {
            stream_id: String::from_str(stream_id),
            events,
            now,
            partition_count: 0,
            published: Vec::new(),
            phase: PublishPhase::Start,
        };
        assert(operation.published.deep_view() =~= Seq::<PublishedEventView>::empty());
        operation
    }

    fn fail(self, error: Error) -> (after: (Self, Step<Vec<PublishedEvent>>))
        ensures
            (after.0@, after.1.shape()) == self@.fail(error@),
    {
        (
            Publish {
                stream_id: self.stream_id,
                events: self.events,
                now: self.now,
                partition_count: self.partition_count,
                published: self.published,
                phase: PublishPhase::Finished,
            },
            Step::Done(Err(error)),
        )
    }

    fn allocate(self, i: usize) -> (after: (Self, Step<Vec<PublishedEvent>>))
        requires
            i < self.events.len() ==> self.partition_count > 0,
        ensures
            (after.0@, after.1.shape()) == self@.allocate(i),
    {
        if i < self.events.len() {
            let partition = Partitioner::new(self.partition_count).partition(
                self.events[i].key.as_str(),
            );
            let request = StoreRequest::Increment {
                pk: partition_key(self.stream_id.as_str(), partition),
                sk: counter_sort_key(),
            };
            (
                Publish {
                    stream_id: self.stream_id,
                    events: self.events,
                    now: self.now,
                    partition_count: self.partition_count,
                    published: self.published,
                    phase: PublishPhase::Allocating(i),
                },
                Step::Call(request),
            )
        } else {
            let mut told: Vec<PublishedEvent> = Vec::new();
            let mut k: usize = 0;
            while k < self.published.len()
                invariant
                    0 <= k <= self.published.len(),
                    told.deep_view() =~= self.published.deep_view().take(k as int),
                decreases self.published.len() - k,
            {
                let ghost had = told.deep_view();
                told.push(self.published[k].clone());
                assert(told.deep_view() =~= had.push(self.published[k as int]@));
                k = k + 1;
            }
            assert(told.deep_view() =~= self.published.deep_view());
            (
                Publish {
                    stream_id: self.stream_id,
                    events: self.events,
                    now: self.now,
                    partition_count: self.partition_count,
                    published: self.published,
                    phase: PublishPhase::Finished,
                },
                Step::Done(Ok(told)),
            )
        }
    }

    /// Takes one step: the first with no reply, each later one with the
    /// table's reply to the request of the step before.
    pub fn step(self, reply: Option<StoreReply>) -> (after: (Self, Step<Vec<PublishedEvent>>))
        ensures
            (after.0@, after.1.shape()) == self@.next(reply.deep_view()),
    {
        match (self.phase, reply) {
            (PublishPhase::Start, None) => {
                match validate_events(&self.events) {
                    Err(error) => self.fail(error),
                    Ok(_) => {
                        let request = stream_request(self.stream_id.as_str());
                        (
                            Publish {
                                stream_id: self.stream_id,
                                events: self.events,
                                now: self.now,
                                partition_count: self.partition_count,
                                published: self.published,
                                phase: PublishPhase::Lookup,
                            },
                            Step::Call(request),
                        )
                    },
                }
            },
            (PublishPhase::Lookup, Some(answer)) => {
                match stream_from_reply(answer, self.stream_id.as_str()) {
                    Ok(stream) => {
                        if stream.partition_count == 0 {
                            self.fail(Error::Internal(String::from_str("stream has no partitions")))
                        } else {
                            let known = Publish {
                                stream_id: self.stream_id,
                                events: self.events,
                                now: self.now,
                                partition_count: stream.partition_count,
                                published: self.published,
                                phase: self.phase,
                            };
                            known.allocate(0)
                        }
                    },
                    Err(error) => self.fail(error),
                }
            },
            (PublishPhase::Allocating(i), Some(answer)) => {
                if i < self.events.len() && self.partition_count > 0 {
                    match sequence_from_reply(answer) {
                        Ok(sequence) => {
                            let partition = Partitioner::new(self.partition_count).partition(
                                self.events[i].key.as_str(),
                            );
                            let event = Event {
                                stream_id: self.stream_id.clone(),
                                partition,
                                sequence,
                                key: self.events[i].key.clone(),
                                event_type: self.events[i].event_type.clone(),
                                data: self.events[i].data.clone(),
                                timestamp: self.now,
                            };
                            let request = StoreRequest::Put {
                                pk: partition_key(self.stream_id.as_str(), partition),
                                sk: sequence_sort_key(sequence),
                                row: Row::Event(event),
                            };
                            (
                                Publish {
                                    stream_id: self.stream_id,
                                    events: self.events,
                                    now: self.now,
                                    partition_count: self.partition_count,
                                    published: self.published,
                                    phase: PublishPhase::Writing(i, partition, sequence),
                                },
                                Step::Call(request),
                            )
                        },
                        Err(error) => self.fail(error),
                    }
                } else {
                    self.fail(unexpected())
                }
            },
            (PublishPhase::Writing(i, partition, sequence), Some(answer)) => {
                if i < self.events.len() && self.partition_count > 0 {
                    match written_from_reply(answer) {
                        Ok(_) => {
                            let told = PublishedEvent {
                                stream_id: self.stream_id.clone(),
                                partition,
                                sequence,
                                key: self.events[i].key.clone(),
                                timestamp: self.now,
                            };
                            let ghost had = self.published.deep_view();
                            let mut published = self.published;
                            published.push(told);
                            assert(published.deep_view() =~= had.push(told@));
                            let grown = Publish {
                                stream_id: self.stream_id,
                                events: self.events,
                                now: self.now,
                                partition_count: self.partition_count,
                                published,
                                phase: self.phase,
                            };
                            grown.allocate(i + 1)
                        },
                        Err(error) => self.fail(error),
                    }
                } else {
                    self.fail(unexpected())
                }
            },
            _ => self.fail(unexpected()),
        }
    }
}

} // verus!
