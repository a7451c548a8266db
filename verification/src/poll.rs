//! The poll path: reading events ahead of a subscription's offsets.
//!
//! A poll reads, for every partition, the events after the subscription's
//! committed offset, merges them by timestamp and hands them out with a
//! cursor that names how far each partition was read. A partition without a
//! committed offset is read from its start; a read that fails ends the poll
//! with the error. Polling changes nothing in the table: until the cursor is
//! committed, the next poll reads the same events again.

use crate::cursor::{cursor_json, cursor_text, encode_cursor};
use crate::errors::{Error, ErrorView};
use crate::keys::{
    meta_sk, offset_sk, offsets_pk, partition_key, partition_pk, sequence_sk, sequence_sort_key,
    stream_pk, subscription_sk,
};
use crate::models::{CursorState, Event, EventView, PartitionOffset, PollResponse, PollResponseView};
use crate::registry::stream_request;
use crate::replies::{
    events_among, events_from_reply, events_of_reply, committed_from_reply, committed_of_reply,
    stream_from_reply, stream_of_reply, subscription_from_reply, subscription_of_reply, unexpected,
    unexpected_reply, ResultShape,
};
use crate::store::{
    lookup, rows_after, Entry, Machine, ReplyView, RequestView, RowView, Step, StepView, StoreReply,
    StoreRequest,
};
use crate::subscriptions::{offset_request, subscription_request};
use vstd::prelude::*;
use vstd::string::StringExecFns;
use vstd::utf8::encode_utf8;

verus! {

/// How many events a poll reads from each partition: the limit shared out
/// evenly, and one at least.
pub open spec fn per_partition_limit(limit: u32, partition_count: u32) -> u32
    recommends
        partition_count > 0,
{
    if limit / partition_count >= 1 {
        limit / partition_count
    } else {
        1
    }
}

/// Computes how many events a poll reads from each partition.
pub fn per_partition(limit: u32, partition_count: u32) -> (each: u32)
    requires
        partition_count > 0,
    ensures
        each == per_partition_limit(limit, partition_count),
        each >= 1,
{
    let share: u32 = limit / partition_count;
    if share >= 1 {
        share
    } else {
        1
    }
}

/// The request that reads up to `limit` events of a partition after the
/// given sequence number, in the order of their sequence numbers.
pub fn events_request(stream_id: &str, partition: u32, from_offset: u64, limit: u32) -> (request:
    StoreRequest)
    ensures
        request@ == (RequestView::QueryAfter {
            pk: partition_pk(stream_id@, partition),
            after: sequence_sk(from_offset),
            limit,
        }),
{
    StoreRequest::QueryAfter {
        pk: partition_key(stream_id, partition),
        after: sequence_sort_key(from_offset),
        limit,
    }
}

/// A sequence ordered by timestamp, with one more event put behind the last
/// event that is not later than it.
pub open spec fn insert_by_time(sorted: Seq<EventView>, event: EventView) -> Seq<EventView>
    decreases sorted.len(),
{
    if sorted.len() == 0 {
        seq![event]
    } else if event.timestamp.is_before(sorted.last().timestamp) {
        insert_by_time(sorted.drop_last(), event).push(sorted.last())
    } else {
        sorted.push(event)
    }
}

/// The events ordered by timestamp; events of one timestamp keep their
/// order.
pub open spec fn sort_by_time(events: Seq<EventView>) -> Seq<EventView>
    decreases events.len(),
{
    if events.len() == 0 {
        Seq::empty()
    } else {
        insert_by_time(sort_by_time(events.drop_last()), events.last())
    }
}

/// Whether no event of the sequence is earlier than one before it.
pub open spec fn ordered_by_time(events: Seq<EventView>) -> bool {
    forall|i: int, j: int|
        0 <= i < j < events.len() ==> !(#[trigger] events[j]).timestamp.is_before(
            (#[trigger] events[i]).timestamp,
        )
}

/// Putting an event at place `at` is `insert_by_time` where every event
/// from `at` on is later than it and the one before is not.
pub proof fn lemma_insert_at(sorted: Seq<EventView>, event: EventView, at: int)
    requires
        0 <= at <= sorted.len(),
        forall|k: int| at <= k < sorted.len() ==> event.timestamp.is_before(sorted[k].timestamp),
        at > 0 ==> !event.timestamp.is_before(sorted[at - 1].timestamp),
    ensures
        insert_by_time(sorted, event) == sorted.insert(at, event),
    decreases sorted.len(),
{
    if sorted.len() == 0 {
        assert(sorted.insert(at, event) =~= seq![event]);
    } else if at == sorted.len() {
        assert(sorted.insert(at, event) =~= sorted.push(event));
    } else {
        let front = sorted.drop_last();
        lemma_insert_at(front, event, at);
        assert(front.insert(at, event).push(sorted.last()) =~= sorted.insert(at, event));
    }
}

/// Inserting into an ordered sequence leaves it ordered, with the same
/// events and one more.
pub proof fn lemma_insert_by_time(sorted: Seq<EventView>, event: EventView)
    requires
        ordered_by_time(sorted),
    ensures
        ordered_by_time(insert_by_time(sorted, event)),
        insert_by_time(sorted, event).to_multiset() == sorted.to_multiset().insert(event),
        insert_by_time(sorted, event).len() == sorted.len() + 1,
    decreases sorted.len(),
{
    broadcast use vstd::seq_lib::group_to_multiset_ensures;

    let out = insert_by_time(sorted, event);
    if sorted.len() == 0 {
        assert(sorted =~= Seq::<EventView>::empty());
        assert(out =~= Seq::<EventView>::empty().push(event));
    } else if event.timestamp.is_before(sorted.last().timestamp) {
        let front = sorted.drop_last();
        let last = sorted.last();
        assert forall|i: int, j: int| 0 <= i < j < front.len() implies !(#[trigger] front[j])
            .timestamp.is_before((#[trigger] front[i]).timestamp) by {
            assert(front[i] == sorted[i] && front[j] == sorted[j]);
        }
        lemma_insert_by_time(front, event);
        let inner = insert_by_time(front, event);
        assert(sorted =~= front.push(last));
        assert forall|i: int, j: int| 0 <= i < j < out.len() implies !(#[trigger] out[j])
            .timestamp.is_before((#[trigger] out[i]).timestamp) by {
            if j < inner.len() {
                assert(out[i] == inner[i] && out[j] == inner[j]);
            } else {
                assert(out[j] == last);
                assert(out[i] == inner[i]);
                // Every event of `inner` is the new one or one of `front`.
                assert(inner.to_multiset().count(inner[i]) > 0);
                if inner[i] != event {
                    assert(front.to_multiset().count(inner[i]) > 0);
                    let k = choose|k: int| 0 <= k < front.len() && front[k] == inner[i];
                    assert(sorted[k] == inner[i]);
                    assert(sorted[sorted.len() - 1] == last);
                }
            }
        }
    } else {
        assert forall|i: int, j: int| 0 <= i < j < out.len() implies !(#[trigger] out[j])
            .timestamp.is_before((#[trigger] out[i]).timestamp) by {
            if j < sorted.len() {
                assert(out[i] == sorted[i] && out[j] == sorted[j]);
            } else {
                assert(out[j] == event);
                assert(out[i] == sorted[i]);
                assert(sorted[sorted.len() - 1] == sorted.last());
            }
        }
    }
}

/// Sorting by time orders the events and keeps each of them, as often as it
/// occurs.
pub proof fn lemma_sort_by_time(events: Seq<EventView>)
    ensures
        ordered_by_time(sort_by_time(events)),
        sort_by_time(events).to_multiset() == events.to_multiset(),
        sort_by_time(events).len() == events.len(),
    decreases events.len(),
{
    broadcast use vstd::seq_lib::group_to_multiset_ensures;

    if events.len() == 0 {
        assert(events =~= Seq::<EventView>::empty());
    } else {
        lemma_sort_by_time(events.drop_last());
        lemma_insert_by_time(sort_by_time(events.drop_last()), events.last());
        assert(events =~= events.drop_last().push(events.last()));
    }
}

/// Orders events by timestamp; events of one timestamp keep their order.
pub fn sorted_by_time(events: &Vec<Event>) -> (sorted: Vec<Event>)
    ensures
        sorted.deep_view() == sort_by_time(events.deep_view()),
{
    let ghost all = events.deep_view();
    let mut sorted: Vec<Event> = Vec::new();
    let mut i: usize = 0;
    while i < events.len()
        invariant
            0 <= i <= events.len(),
            all == events.deep_view(),
            sorted.len() == i,
            sorted.deep_view() =~= sort_by_time(all.take(i as int)),
        decreases events.len() - i,
    {
        assert(all.take(i + 1).drop_last() =~= all.take(i as int));
        assert(all.take(i + 1).last() == events[i as int]@);
        let event = events[i].clone();
        let ghost had = sorted.deep_view();
        let mut at: usize = sorted.len();
        while at > 0 && event.timestamp.before(&sorted[at - 1].timestamp)
            invariant
                0 <= at <= sorted.len(),
                had == sorted.deep_view(),
                forall|k: int|
                    at <= k < sorted.len() ==> event.timestamp.is_before(
                        (#[trigger] had[k]).timestamp,
                    ),
            decreases at,
        {
            at = at - 1;
        }
        proof {
            lemma_insert_at(had, event@, at as int);
        }
        sorted.insert(at, event);
        assert(sorted.deep_view() =~= had.insert(at as int, event@));
        i = i + 1;
    }
    assert(all.take(events.len() as int) =~= all);
    sorted
}

/// How far a poll has come.
#[derive(Debug, Clone, Copy, PartialEq, Eq, Structural)]
pub enum PollPhase {
    /// Nothing was asked yet.
    Start,
    /// The stream's metadata is being read.
    Stream,
    /// The subscription's registration is being read.
    Subscription,
    /// The committed offset of this partition is being read.
    Offset(u32),
    /// The events of this partition after this offset are being read.
    Events(u32, u64),
    /// The operation has ended.
    Finished,
}

/// A poll, one request at a time.
#[derive(Debug)]
pub struct Poll {
    stream_id: String,
    subscription_id: String,
    limit: u32,
    partition_count: u32,
    offsets: Vec<PartitionOffset>,
    events: Vec<Event>,
    phase: PollPhase,
}

/// The mathematical model of [`Poll`].
pub struct PollModel {
    pub stream_id: Seq<char>,
    pub subscription_id: Seq<char>,
    pub limit: u32,
    pub partition_count: u32,
    pub offsets: Seq<PartitionOffset>,
    pub events: Seq<EventView>,
    pub phase: PollPhase,
}

/// The sequence number up to which a partition was read: that of the last
/// event found, or the offset read from where none was found.
pub open spec fn advance(found: Seq<EventView>, offset: u64) -> u64 {
    if found.len() > 0 {
        found.last().sequence
    } else {
        offset
    }
}

/// The offset that a subscription has committed in a partition; zero where
/// the table holds none.
pub open spec fn committed_offset(
    table: Seq<Entry>,
    stream_id: Seq<char>,
    subscription_id: Seq<char>,
    partition: u32,
) -> u64 {
    match lookup(table, offsets_pk(stream_id, subscription_id), offset_sk(partition)) {
        Some(RowView::Offset { offset, committed_at }) => offset,
        _ => 0,
    }
}

/// The events that a poll reads from one partition: those after the
/// committed offset, in the order of their sequence numbers, as many as each
/// partition's share of the limit allows.
pub open spec fn partition_read(
    table: Seq<Entry>,
    stream_id: Seq<char>,
    subscription_id: Seq<char>,
    partition_count: u32,
    limit: u32,
    partition: u32,
) -> Seq<EventView> {
    events_among(
        rows_after(
            table,
            partition_pk(stream_id, partition),
            sequence_sk(committed_offset(table, stream_id, subscription_id, partition)),
            per_partition_limit(limit, partition_count) as nat,
        ),
    )
}

/// What a poll finds where it looks for the committed offset of a
/// partition: the offset, zero where none is committed, or an error where
/// the row there is no offset.
pub open spec fn offset_read(
    table: Seq<Entry>,
    stream_id: Seq<char>,
    subscription_id: Seq<char>,
    partition: u32,
) -> Result<u64, ErrorView> {
    committed_of_reply(
        ReplyView::Item(
            lookup(table, offsets_pk(stream_id, subscription_id), offset_sk(partition)),
        ),
    )
}

/// What a poll reads from the partitions below `upto`: how far it read in
/// each of them, and the events that it read, partition after partition. It
/// reads nothing beyond the first partition whose offset is unreadable, and
/// ends with that error.
pub open spec fn reads(
    table: Seq<Entry>,
    stream_id: Seq<char>,
    subscription_id: Seq<char>,
    partition_count: u32,
    limit: u32,
    upto: u32,
) -> Result<(Seq<PartitionOffset>, Seq<EventView>), ErrorView>
    decreases upto,
{
    if upto == 0 {
        Ok((Seq::empty(), Seq::empty()))
    } else {
        let partition = (upto - 1) as u32;
        match reads(table, stream_id, subscription_id, partition_count, limit, partition) {
            Err(error) => Err(error),
            Ok(before) => match offset_read(table, stream_id, subscription_id, partition) {
                Err(error) => Err(error),
                Ok(offset) => {
                    let found = partition_read(
                        table,
                        stream_id,
                        subscription_id,
                        partition_count,
                        limit,
                        partition,
                    );
                    Ok(
                        (
                            before.0.push(
                                PartitionOffset { partition, offset: advance(found, offset) },
                            ),
                            before.1 + found,
                        ),
                    )
                },
            },
        }
    }
}

/// The response to a poll that has read `read`: the events by timestamp,
/// the first `limit` of them, and the cursor of the offsets; the error of a
/// read that failed.
pub open spec fn poll_outcome(
    limit: u32,
    read: Result<(Seq<PartitionOffset>, Seq<EventView>), ErrorView>,
) -> Result<PollResponseView, ErrorView> {
    match read {
        Err(error) => Err(error),
        Ok(read) => {
            if encode_utf8(cursor_json(read.0)).len() > usize::MAX / 2 {
                Err(ErrorView::Internal("cursor too long"@))
            } else {
                Ok(
                    PollResponseView {
                        events: first_events(sort_by_time(read.1), limit),
                        cursor: cursor_text(read.0),
                        remaining: 0,
                    },
                )
            }
        },
    }
}

/// What a poll for at most `limit` events returns on a table that does not
/// fail: an error where the stream or the subscription is not there or a
/// row is not what its key says, else what it read from all partitions of
/// the stream.
pub open spec fn polled(
    table: Seq<Entry>,
    stream_id: Seq<char>,
    subscription_id: Seq<char>,
    limit: u32,
) -> Result<PollResponseView, ErrorView> {
    let limit = if limit == 0 {
        1u32
    } else {
        limit
    };
    let metadata = ReplyView::Item(lookup(table, stream_pk(stream_id), meta_sk()));
    match stream_of_reply(metadata, stream_id) {
        Err(error) => Err(error),
        Ok(stream) => {
            if stream.partition_count == 0 {
                Err(ErrorView::Internal("stream has no partitions"@))
            } else {
                match subscription_of_reply(
                    ReplyView::Item(
                        lookup(table, stream_pk(stream_id), subscription_sk(subscription_id)),
                    ),
                    subscription_id,
                ) {
                    Err(error) => Err(error),
                    Ok(_) => poll_outcome(
                        limit,
                        reads(
                            table,
                            stream_id,
                            subscription_id,
                            stream.partition_count,
                            limit,
                            stream.partition_count,
                        ),
                    ),
                }
            }
        },
    }
}

/// The first `limit` of the events, or all where there are fewer.
pub open spec fn first_events(events: Seq<EventView>, limit: u32) -> Seq<EventView> {
    if events.len() > limit {
        events.take(limit as int)
    } else {
        events
    }
}

impl PollModel {
    /// A poll for at most `limit` events, before its first step. A limit of
    /// zero counts as one.
    pub open spec fn start(stream_id: Seq<char>, subscription_id: Seq<char>, limit: u32) -> Self {
        PollModel {
            stream_id,
            subscription_id,
            limit: if limit == 0 {
                1
            } else {
                limit
            },
            partition_count: 0,
            offsets: Seq::empty(),
            events: Seq::empty(),
            phase: PollPhase::Start,
        }
    }

    /// Ends the operation with an error.
    pub open spec fn fail(self, error: ErrorView) -> (Self, StepView<PollResponseView>) {
        (PollModel { phase: PollPhase::Finished, ..self }, StepView::Done(Err(error)))
    }

    /// The response of a poll that has read all partitions.
    pub open spec fn response(self) -> PollResponseView {
        PollResponseView {
            events: first_events(sort_by_time(self.events), self.limit),
            cursor: cursor_text(self.offsets),
            remaining: 0,
        }
    }

    /// Ends the poll with what it has read. A cursor whose JSON text is
    /// longer than half the address space cannot be written.
    pub open spec fn finish(self) -> (Self, StepView<PollResponseView>) {
        if encode_utf8(cursor_json(self.offsets)).len() > usize::MAX / 2 {
            self.fail(ErrorView::Internal("cursor too long"@))
        } else {
            (
                PollModel { phase: PollPhase::Finished, ..self },
                StepView::Done(Ok(self.response())),
            )
        }
    }

    /// Reads the committed offset of `partition`, or ends where every
    /// partition is read.
    pub open spec fn partition(self, partition: u32) -> (Self, StepView<PollResponseView>) {
        if partition < self.partition_count {
            (
                PollModel { phase: PollPhase::Offset(partition), ..self },
                StepView::Call(
                    RequestView::Get {
                        pk: offsets_pk(self.stream_id, self.subscription_id),
                        sk: offset_sk(partition),
                    },
                ),
            )
        } else {
            self.finish()
        }
    }
}

impl Machine for PollModel {
    type Out = PollResponseView;

    open spec fn next(self, reply: Option<ReplyView>) -> (Self, StepView<PollResponseView>) {
        match (self.phase, reply) {
            (PollPhase::Start, None) => (
                PollModel { phase: PollPhase::Stream, ..self },
                StepView::Call(RequestView::Get { pk: stream_pk(self.stream_id), sk: meta_sk() }),
            ),
            (PollPhase::Stream, Some(answer)) => {
                match stream_of_reply(answer, self.stream_id) {
                    Ok(stream) => {
                        if stream.partition_count == 0 {
                            self.fail(ErrorView::Internal("stream has no partitions"@))
                        } else {
                            (
                                PollModel {
                                    phase: PollPhase::Subscription,
                                    partition_count: stream.partition_count,
                                    ..self
                                },
                                StepView::Call(
                                    RequestView::Get {
                                        pk: stream_pk(self.stream_id),
                                        sk: subscription_sk(self.subscription_id),
                                    },
                                ),
                            )
                        }
                    },
                    Err(error) => self.fail(error),
                }
            },
            (PollPhase::Subscription, Some(answer)) => {
                match subscription_of_reply(answer, self.subscription_id) {
                    Ok(_) => self.partition(0),
                    Err(error) => self.fail(error),
                }
            },
            (PollPhase::Offset(partition), Some(answer)) => {
                if partition < self.partition_count {
                    match committed_of_reply(answer) {
                        Ok(offset) => (
                            PollModel { phase: PollPhase::Events(partition, offset), ..self },
                            StepView::Call(
                                RequestView::QueryAfter {
                                    pk: partition_pk(self.stream_id, partition),
                                    after: sequence_sk(offset),
                                    limit: per_partition_limit(self.limit, self.partition_count),
                                },
                            ),
                        ),
                        Err(error) => self.fail(error),
                    }
                } else {
                    self.fail(unexpected_reply())
                }
            },
            (PollPhase::Events(partition, offset), Some(answer)) => {
                if partition < self.partition_count {
                    match events_of_reply(answer) {
                        Ok(found) => PollModel {
                            offsets: self.offsets.push(
                                PartitionOffset { partition, offset: advance(found, offset) },
                            ),
                            events: self.events + found,
                            ..self
                        }.partition((partition + 1) as u32),
                        Err(error) => self.fail(error),
                    }
                } else {
                    self.fail(unexpected_reply())
                }
            },
            _ => self.fail(unexpected_reply()),
        }
    }

    open spec fn budget(self) -> nat {
        match self.phase {
            PollPhase::Start => (2 * u32::MAX + 4) as nat,
            PollPhase::Stream => (2 * u32::MAX + 3) as nat,
            PollPhase::Subscription => (2 * self.partition_count + 1) as nat,
            PollPhase::Offset(partition) => if partition < self.partition_count {
                (2 * (self.partition_count - partition)) as nat
            } else {
                0
            },
            PollPhase::Events(partition, _) => if partition < self.partition_count {
                (2 * (self.partition_count - partition) - 1) as nat
            } else {
                0
            },
            PollPhase::Finished => 0,
        }
    }

    proof fn lemma_budget(self, reply: Option<ReplyView>) {
    }
}

impl View for Poll {
    type V = PollModel;

    closed spec fn view(&self) -> PollModel {
        PollModel {
            stream_id: self.stream_id@,
            subscription_id: self.subscription_id@,
            limit: self.limit,
            partition_count: self.partition_count,
            offsets: self.offsets@,
            events: self.events.deep_view(),
            phase: self.phase,
        }
    }
}

impl Poll {
    /// Starts a poll for at most `limit` events. A limit of zero counts as
    /// one.
    pub fn new(stream_id: &str, subscription_id: &str, limit: u32) -> (operation: Self)
        ensures
            operation@ == PollModel::start(stream_id@, subscription_id@, limit),
    {
        let operation = Poll {
            stream_id: String::from_str(stream_id),
            subscription_id: String::from_str(subscription_id),
            limit: if limit == 0 {
                1
            } else {
                limit
            },
            partition_count: 0,
            offsets: Vec::new(),
            events: Vec::new(),
            phase: PollPhase::Start,
        };
        assert(operation.events.deep_view() =~= Seq::<EventView>::empty());
        operation
    }

    fn at(self, phase: PollPhase) -> (moved: Self)
        ensures
            moved@ == (PollModel { phase, ..self@ }),
    {
        Poll {
            stream_id: self.stream_id,
            subscription_id: self.subscription_id,
            limit: self.limit,
            partition_count: self.partition_count,
            offsets: self.offsets,
            events: self.events,
            phase,
        }
    }

    fn fail(self, error: Error) -> (after: (Self, Step<PollResponse>))
        ensures
            (after.0@, after.1.shape()) == self@.fail(error@),
    {
        (self.at(PollPhase::Finished), Step::Done(Err(error)))
    }

    fn finish(self) -> (after: (Self, Step<PollResponse>))
        ensures
            (after.0@, after.1.shape()) == self@.finish(),
    {
        let state = CursorState { offsets: self.offsets.clone() };
        assert(state.offsets@ == self.offsets@);
        match encode_cursor(&state) {
            None => self.fail(Error::Internal(String::from_str("cursor too long"))),
            Some(cursor) => {
                let mut events = sorted_by_time(&self.events);
                let ghost sorted = events.deep_view();
                if events.len() > self.limit as usize {
                    events.truncate(self.limit as usize);
                    assert(events.deep_view() =~= sorted.take(self.limit as int));
                }
                let response = PollResponse { events, cursor, remaining: 0 };
                (self.at(PollPhase::Finished), Step::Done(Ok(response)))
            },
        }
    }

    fn partition(self, partition: u32) -> (after: (Self, Step<PollResponse>))
        ensures
            (after.0@, after.1.shape()) == self@.partition(partition),
    {
        if partition < self.partition_count {
            let request = offset_request(
                self.stream_id.as_str(),
                self.subscription_id.as_str(),
                partition,
            );
            (self.at(PollPhase::Offset(partition)), Step::Call(request))
        } else {
            self.finish()
        }
    }

    /// Takes one step: the first with no reply, each later one with the
    /// table's reply to the request of the step before.
    pub fn step(self, reply: Option<StoreReply>) -> (after: (Self, Step<PollResponse>))
        ensures
            (after.0@, after.1.shape()) == self@.next(reply.deep_view()),
    {
        match (self.phase, reply) {
            (PollPhase::Start, None) => {
                let request = stream_request(self.stream_id.as_str());
                (self.at(PollPhase::Stream), Step::Call(request))
            },
            (PollPhase::Stream, Some(answer)) => {
                match stream_from_reply(answer, self.stream_id.as_str()) {
                    Ok(stream) => {
                        if stream.partition_count == 0 {
                            self.fail(Error::Internal(String::from_str("stream has no partitions")))
                        } else {
                            let request = subscription_request(
                                self.stream_id.as_str(),
                                self.subscription_id.as_str(),
                            );
                            (
                                Poll {
                                    stream_id: self.stream_id,
                                    subscription_id: self.subscription_id,
                                    limit: self.limit,
                                    partition_count: stream.partition_count,
                                    offsets: self.offsets,
                                    events: self.events,
                                    phase: PollPhase::Subscription,
                                },
                                Step::Call(request),
                            )
                        }
                    },
                    Err(error) => self.fail(error),
                }
            },
            (PollPhase::Subscription, Some(answer)) => {
                match subscription_from_reply(answer, self.subscription_id.as_str()) {
                    Ok(_) => self.partition(0),
                    Err(error) => self.fail(error),
                }
            },
            (PollPhase::Offset(partition), Some(answer)) => {
                if partition < self.partition_count {
                    match committed_from_reply(answer) {
                        Ok(offset) => {
                            let request = events_request(
                                self.stream_id.as_str(),
                                partition,
                                offset,
                                per_partition(self.limit, self.partition_count),
                            );
                            (self.at(PollPhase::Events(partition, offset)), Step::Call(request))
                        },
                        Err(error) => self.fail(error),
                    }
                } else {
                    self.fail(unexpected())
                }
            },
            (PollPhase::Events(partition, offset), Some(answer)) => {
                if partition < self.partition_count {
                    let mut found: Vec<Event> = match events_from_reply(answer) {
                        Ok(events) => events,
                        Err(error) => {
                            return self.fail(error);
                        },
                    };
                    let ghost read = found.deep_view();
                    let reached: u64 = if found.len() > 0 {
                        found[found.len() - 1].sequence
                    } else {
                        offset
                    };
                    assert(reached == advance(read, offset));
                    let ghost had = self.events.deep_view();
                    let mut offsets = self.offsets;
                    offsets.push(PartitionOffset { partition, offset: reached });
                    let mut events = self.events;
                    events.append(&mut found);
                    assert(events.deep_view() =~= had + read);
                    let grown = Poll {
                        stream_id: self.stream_id,
                        subscription_id: self.subscription_id,
                        limit: self.limit,
                        partition_count: self.partition_count,
                        offsets,
                        events,
                        phase: self.phase,
                    };
                    grown.partition(partition + 1)
                } else {
                    self.fail(unexpected())
                }
            },
            _ => self.fail(unexpected()),
        }
    }
}

} // verus!
