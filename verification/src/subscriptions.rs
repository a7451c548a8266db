//! Subscriptions and their offsets.
//!
//! A subscription is a named position of a consumer group in a stream: one
//! committed offset per partition. Creating a subscription registers it, if
//! its id is free, and writes the first offset of every partition: zero to
//! start from the earliest event or from compacted state, the partition's
//! counter to start from the latest. Committing is for a subscription that
//! is registered on a stream that is there, and for partitions that the
//! stream has. It writes the offsets that a cursor carries, one partition at
//! a time and not as one transaction; an offset may move backwards, which
//! replays events.

use crate::cursor::{decode_cursor, decoded_cursor};
use crate::errors::{Error, ErrorView};
use crate::keys::{
    counter_sk, counter_sort_key, meta_sk, offset_sk, offset_sort_key, offsets_key, offsets_pk,
    partition_key, partition_pk, stream_key, stream_pk, subscription_sk, subscription_sort_key,
};
use crate::models::{
    CommitResponse, PartitionOffset, StartFrom, Subscription, SubscriptionView, Timestamp,
};
use crate::registry::stream_request;
use crate::replies::{
    created_from_reply, created_of_reply, latest_from_reply, latest_of_reply, stream_from_reply,
    stream_of_reply, subscription_from_reply, subscription_of_reply, unexpected,
    unexpected_reply, written_from_reply, written_of_reply, ResultShape,
};
use crate::store::{
    lookup, Entry, Machine, ReplyView, RequestView, Row, RowView, Step, StepView, StoreReply,
    StoreRequest,
};
use vstd::prelude::*;
use vstd::string::StringExecFns;

verus! {

/// The request that reads a subscription's registration.
pub fn subscription_request(stream_id: &str, subscription_id: &str) -> (request: StoreRequest)
    ensures
        request@ == (RequestView::Get {
            pk: stream_pk(stream_id@),
            sk: subscription_sk(subscription_id@),
        }),
{
    StoreRequest::Get { pk: stream_key(stream_id), sk: subscription_sort_key(subscription_id) }
}

/// The request that reads a subscription's committed offset in a partition.
pub fn offset_request(stream_id: &str, subscription_id: &str, partition: u32) -> (request:
    StoreRequest)
    ensures
        request@ == (RequestView::Get {
            pk: offsets_pk(stream_id@, subscription_id@),
            sk: offset_sk(partition),
        }),
{
    StoreRequest::Get {
        pk: offsets_key(stream_id, subscription_id),
        sk: offset_sort_key(partition),
    }
}

/// The request that reads a partition's counter.
pub fn latest_request(stream_id: &str, partition: u32) -> (request: StoreRequest)
    ensures
        request@ == (RequestView::Get {
            pk: partition_pk(stream_id@, partition),
            sk: counter_sk(),
        }),
{
    StoreRequest::Get { pk: partition_key(stream_id, partition), sk: counter_sort_key() }
}

/// The write of a subscription's offset in a partition.
pub open spec fn offset_write(
    stream_id: Seq<char>,
    subscription_id: Seq<char>,
    partition: u32,
    offset: u64,
    now: Timestamp,
) -> RequestView {
    RequestView::Put {
        pk: offsets_pk(stream_id, subscription_id),
        sk: offset_sk(partition),
        row: RowView::Offset { offset, committed_at: now },
    }
}

/// The request that writes a subscription's offset in a partition.
pub fn set_offset_request(
    stream_id: &str,
    subscription_id: &str,
    partition: u32,
    offset: u64,
    now: Timestamp,
) -> (request: StoreRequest)
    ensures
        request@ == offset_write(stream_id@, subscription_id@, partition, offset, now),
{
    StoreRequest::Put {
        pk: offsets_key(stream_id, subscription_id),
        sk: offset_sort_key(partition),
        row: Row::Offset { offset, committed_at: now },
    }
}

/// How far the creation of a subscription has come.
#[derive(Debug, Clone, Copy, PartialEq, Eq, Structural)]
pub enum SubscribePhase {
    /// Nothing was asked yet.
    Start,
    /// The stream's metadata is being read.
    Lookup,
    /// The subscription is being registered.
    Register,
    /// The counter of this partition is being read.
    Latest(u32),
    /// The first offset of this partition is being written.
    Offset(u32),
    /// The operation has ended.
    Finished,
}

/// The creation of a subscription, one request at a time.
#[derive(Debug)]
pub struct CreateSubscription {
    stream_id: String,
    subscription_id: String,
    start_from: StartFrom,
    now: Timestamp,
    partition_count: u32,
    phase: SubscribePhase,
}

/// The mathematical model of [`CreateSubscription`].
pub struct CreateSubscriptionModel {
    pub stream_id: Seq<char>,
    pub subscription_id: Seq<char>,
    pub start_from: StartFrom,
    pub now: Timestamp,
    pub partition_count: u32,
    pub phase: SubscribePhase,
}

impl CreateSubscriptionModel {
    /// The creation of a subscription at the instant `now`, before its first
    /// step.
    pub open spec fn start(
        stream_id: Seq<char>,
        subscription_id: Seq<char>,
        start_from: StartFrom,
        now: Timestamp,
    ) -> Self {
        CreateSubscriptionModel {
            stream_id,
            subscription_id,
            start_from,
            now,
            partition_count: 0,
            phase: SubscribePhase::Start,
        }
    }

    /// The subscription that is being created.
    pub open spec fn subscription(self) -> SubscriptionView {
        SubscriptionView {
            stream_id: self.stream_id,
            subscription_id: self.subscription_id,
            created_at: self.now,
        }
    }

    /// Ends the operation with an error.
    pub open spec fn fail(self, error: ErrorView) -> (Self, StepView<SubscriptionView>) {
        (
            CreateSubscriptionModel { phase: SubscribePhase::Finished, ..self },
            StepView::Done(Err(error)),
        )
    }

    /// Writes the first offset of a partition.
    pub open spec fn write_offset(self, partition: u32, offset: u64) -> (
        Self,
        StepView<SubscriptionView>,
    ) {
        (
            CreateSubscriptionModel { phase: SubscribePhase::Offset(partition), ..self },
            StepView::Call(
                offset_write(self.stream_id, self.subscription_id, partition, offset, self.now),
            ),
        )
    }

    /// Goes on with the first offset of `partition`, or ends where every
    /// partition has one.
    pub open spec fn offsets_from(self, partition: u32) -> (Self, StepView<SubscriptionView>) {
        if partition < self.partition_count {
            if self.start_from == StartFrom::Latest {
                (
                    CreateSubscriptionModel { phase: SubscribePhase::Latest(partition), ..self },
                    StepView::Call(
                        RequestView::Get {
                            pk: partition_pk(self.stream_id, partition),
                            sk: counter_sk(),
                        },
                    ),
                )
            } else {
                self.write_offset(partition, 0)
            }
        } else {
            (
                CreateSubscriptionModel { phase: SubscribePhase::Finished, ..self },
                StepView::Done(Ok(self.subscription())),
            )
        }
    }
}

impl Machine for CreateSubscriptionModel {
    type Out = SubscriptionView;

    open spec fn next(self, reply: Option<ReplyView>) -> (Self, StepView<SubscriptionView>) {
        match (self.phase, reply) {
            (SubscribePhase::Start, None) => {
                if self.subscription_id.len() == 0 {
                    self.fail(ErrorView::InvalidSubscriptionId("subscription_id is required"@))
                } else {
                    (
                        CreateSubscriptionModel { phase: SubscribePhase::Lookup, ..self },
                        StepView::Call(
                            RequestView::Get { pk: stream_pk(self.stream_id), sk: meta_sk() },
                        ),
                    )
                }
            },
            (SubscribePhase::Lookup, Some(answer)) => {
                match stream_of_reply(answer, self.stream_id) {
                    Ok(stream) => (
                        CreateSubscriptionModel {
                            phase: SubscribePhase::Register,
                            partition_count: stream.partition_count,
                            ..self
                        },
                        StepView::Call(
                            RequestView::PutIfAbsent {
                                pk: stream_pk(self.stream_id),
                                sk: subscription_sk(self.subscription_id),
                                row: RowView::Subscription(self.subscription()),
                            },
                        ),
                    ),
                    Err(error) => self.fail(error),
                }
            },
            (SubscribePhase::Register, Some(answer)) => {
                match created_of_reply(
                    answer,
                    ErrorView::SubscriptionAlreadyExists(self.subscription_id),
                ) {
                    Ok(_) => self.offsets_from(0),
                    Err(error) => self.fail(error),
                }
            },
            (SubscribePhase::Latest(partition), Some(answer)) => {
                if partition < self.partition_count {
                    match latest_of_reply(answer) {
                        Ok(sequence) => self.write_offset(partition, sequence),
                        Err(error) => self.fail(error),
                    }
                } else {
                    self.fail(unexpected_reply())
                }
            },
            (SubscribePhase::Offset(partition), Some(answer)) => {
                if partition < self.partition_count {
                    match written_of_reply(answer) {
                        Ok(_) => self.offsets_from((partition + 1) as u32),
                        Err(error) => self.fail(error),
                    }
                } else {
                    self.fail(unexpected_reply())
                }
            },
            _ => self.fail(unexpected_reply()),
        }
    }

    open spec fn budget(self) -> nat {
        match self.phase {
            SubscribePhase::Start => (2 * u32::MAX + 3) as nat,
            SubscribePhase::Lookup => (2 * u32::MAX + 2) as nat,
            SubscribePhase::Register => (2 * self.partition_count + 1) as nat,
            SubscribePhase::Latest(partition) => if partition < self.partition_count {
                (2 * (self.partition_count - partition)) as nat
            } else {
                0
            },
            SubscribePhase::Offset(partition) => if partition < self.partition_count {
                (2 * (self.partition_count - partition) - 1) as nat
            } else {
                0
            },
            SubscribePhase::Finished => 0,
        }
    }

    proof fn lemma_budget(self, reply: Option<ReplyView>) {
    }
}

impl View for CreateSubscription {
    type V = CreateSubscriptionModel;

    closed spec fn view(&self) -> CreateSubscriptionModel {
        CreateSubscriptionModel {
            stream_id: self.stream_id@,
            subscription_id: self.subscription_id@,
            start_from: self.start_from,
            now: self.now,
            partition_count: self.partition_count,
            phase: self.phase,
        }
    }
}

impl CreateSubscription {
    /// Starts the creation of a subscription; `now` becomes its time of
    /// creation and the time of its first offsets.
    pub fn new(
        stream_id: &str,
        subscription_id: &str,
        start_from: StartFrom,
        now: Timestamp,
    ) -> (operation: Self)
        ensures
            operation@ == CreateSubscriptionModel::start(
                stream_id@,
                subscription_id@,
                start_from,
                now,
            ),
    {
        CreateSubscription {
            stream_id: String::from_str(stream_id),
            subscription_id: String::from_str(subscription_id),
            start_from,
            now,
            partition_count: 0,
            phase: SubscribePhase::Start,
        }
    }

    fn at(self, phase: SubscribePhase) -> (moved: Self)
        ensures
            moved@ == (CreateSubscriptionModel { phase, ..self@ }),
    {
        CreateSubscription {
            stream_id: self.stream_id,
            subscription_id: self.subscription_id,
            start_from: self.start_from,
            now: self.now,
            partition_count: self.partition_count,
            phase,
        }
    }

    fn fail(self, error: Error) -> (after: (Self, Step<Subscription>))
        ensures
            (after.0@, after.1.shape()) == self@.fail(error@),
    {
        (self.at(SubscribePhase::Finished), Step::Done(Err(error)))
    }

    fn write_offset(self, partition: u32, offset: u64) -> (after: (Self, Step<Subscription>))
        ensures
            (after.0@, after.1.shape()) == self@.write_offset(partition, offset),
    {
        let request = set_offset_request(
            self.stream_id.as_str(),
            self.subscription_id.as_str(),
            partition,
            offset,
            self.now,
        );
        (self.at(SubscribePhase::Offset(partition)), Step::Call(request))
    }

    fn offsets_from(self, partition: u32) -> (after: (Self, Step<Subscription>))
        ensures
            (after.0@, after.1.shape()) == self@.offsets_from(partition),
    {
        if partition < self.partition_count {
            match self.start_from {
                StartFrom::Latest => {
                    let request = latest_request(self.stream_id.as_str(), partition);
                    (self.at(SubscribePhase::Latest(partition)), Step::Call(request))
                },
                _ => self.write_offset(partition, 0),
            }
        } else {
            let subscription = Subscription::created(
                self.stream_id.clone(),
                self.subscription_id.clone(),
                self.now,
            );
            (self.at(SubscribePhase::Finished), Step::Done(Ok(subscription)))
        }
    }

    /// Takes one step: the first with no reply, each later one with the
    /// table's reply to the request of the step before.
    pub fn step(self, reply: Option<StoreReply>) -> (after: (Self, Step<Subscription>))
        ensures
            (after.0@, after.1.shape()) == self@.next(reply.deep_view()),
    {
        match (self.phase, reply) {
            (SubscribePhase::Start, None) => {
                if self.subscription_id.as_str().unicode_len() == 0 {
                    self.fail(
                        Error::InvalidSubscriptionId(
                            String::from_str("subscription_id is required"),
                        ),
                    )
                } else {
                    let request = stream_request(self.stream_id.as_str());
                    (self.at(SubscribePhase::Lookup), Step::Call(request))
                }
            },
            (SubscribePhase::Lookup, Some(answer)) => {
                match stream_from_reply(answer, self.stream_id.as_str()) {
                    Ok(stream) => {
                        let subscription = Subscription::created(
                            self.stream_id.clone(),
                            self.subscription_id.clone(),
                            self.now,
                        );
                        let request = StoreRequest::PutIfAbsent {
                            pk: stream_key(self.stream_id.as_str()),
                            sk: subscription_sort_key(self.subscription_id.as_str()),
                            row: Row::Subscription(subscription),
                        };
                        (
                            CreateSubscription {
                                stream_id: self.stream_id,
                                subscription_id: self.subscription_id,
                                start_from: self.start_from,
                                now: self.now,
                                partition_count: stream.partition_count,
                                phase: SubscribePhase::Register,
                            },
                            Step::Call(request),
                        )
                    },
                    Err(error) => self.fail(error),
                }
            },
            (SubscribePhase::Register, Some(answer)) => {
                let taken = Error::SubscriptionAlreadyExists(self.subscription_id.clone());
                match created_from_reply(answer, taken) {
                    Ok(_) => self.offsets_from(0),
                    Err(error) => self.fail(error),
                }
            },
            (SubscribePhase::Latest(partition), Some(answer)) => {
                if partition < self.partition_count {
                    match latest_from_reply(answer) {
                        Ok(sequence) => self.write_offset(partition, sequence),
                        Err(error) => self.fail(error),
                    }
                } else {
                    self.fail(unexpected())
                }
            },
            (SubscribePhase::Offset(partition), Some(answer)) => {
                if partition < self.partition_count {
                    match written_from_reply(answer) {
                        Ok(_) => self.offsets_from(partition + 1),
                        Err(error) => self.fail(error),
                    }
                } else {
                    self.fail(unexpected())
                }
            },
            _ => self.fail(unexpected()),
        }
    }
}

/// How far a commit has come.
#[derive(Debug, Clone, Copy, PartialEq, Eq, Structural)]
pub enum CommitPhase {
    /// Nothing was asked yet.
    Start,
    /// The stream's metadata is being read.
    Stream,
    /// The subscription's registration is being read.
    Subscription,
    /// The offset at this place of the cursor is being written.
    Writing(usize),
    /// The operation has ended.
    Finished,
}

/// The committing of a cursor's offsets, one request at a time.
#[derive(Debug)]
pub struct CommitOffsets {
    stream_id: String,
    subscription_id: String,
    offsets: Vec<PartitionOffset>,
    now: Timestamp,
    partition_count: u32,
    phase: CommitPhase,
}

/// The mathematical model of [`CommitOffsets`].
pub struct CommitOffsetsModel {
    pub stream_id: Seq<char>,
    pub subscription_id: Seq<char>,
    pub offsets: Seq<PartitionOffset>,
    pub now: Timestamp,
    pub partition_count: u32,
    pub phase: CommitPhase,
}

/// Whether every offset names a partition below `partition_count`.
pub open spec fn partitions_in_range(offsets: Seq<PartitionOffset>, partition_count: u32) -> bool {
    forall|i: int| 0 <= i < offsets.len() ==> (#[trigger] offsets[i]).partition < partition_count
}

/// The error for a cursor that names a partition the stream does not have.
pub open spec fn out_of_range() -> ErrorView {
    ErrorView::InvalidCursor("partition out of range"@)
}

/// Tells whether every offset names a partition of the stream.
pub fn all_in_range(offsets: &Vec<PartitionOffset>, partition_count: u32) -> (within: bool)
    ensures
        within == partitions_in_range(offsets@, partition_count),
{
    let mut i: usize = 0;
    while i < offsets.len()
        invariant
            0 <= i <= offsets.len(),
            forall|k: int| 0 <= k < i ==> (#[trigger] offsets@[k]).partition < partition_count,
        decreases offsets.len() - i,
    {
        if offsets[i].partition >= partition_count {
            return false;
        }
        i = i + 1;
    }
    true
}

/// Why a commit writes nothing, if it writes nothing: the stream or the
/// subscription is not there, or the cursor names a partition that the
/// stream does not have.
pub open spec fn commit_refusal(
    table: Seq<Entry>,
    stream_id: Seq<char>,
    subscription_id: Seq<char>,
    offsets: Seq<PartitionOffset>,
) -> Option<ErrorView> {
    let metadata = ReplyView::Item(lookup(table, stream_pk(stream_id), meta_sk()));
    let registration = ReplyView::Item(
        lookup(table, stream_pk(stream_id), subscription_sk(subscription_id)),
    );
    match stream_of_reply(metadata, stream_id) {
        Err(error) => Some(error),
        Ok(stream) => match subscription_of_reply(registration, subscription_id) {
            Err(error) => Some(error),
            Ok(_) => if partitions_in_range(offsets, stream.partition_count) {
                None
            } else {
                Some(out_of_range())
            },
        },
    }
}

impl CommitOffsetsModel {
    /// The committing of `offsets` at the instant `now`, before its first
    /// step.
    pub open spec fn start(
        stream_id: Seq<char>,
        subscription_id: Seq<char>,
        offsets: Seq<PartitionOffset>,
        now: Timestamp,
    ) -> Self {
        CommitOffsetsModel {
            stream_id,
            subscription_id,
            offsets,
            now,
            partition_count: 0,
            phase: CommitPhase::Start,
        }
    }

    /// Ends the operation with an error.
    pub open spec fn fail(self, error: ErrorView) -> (Self, StepView<()>) {
        (CommitOffsetsModel { phase: CommitPhase::Finished, ..self }, StepView::Done(Err(error)))
    }

    /// Writes the offset at place `i`, or ends where all are written.
    pub open spec fn write(self, i: usize) -> (Self, StepView<()>) {
        if i < self.offsets.len() {
            (
                CommitOffsetsModel { phase: CommitPhase::Writing(i), ..self },
                StepView::Call(
                    offset_write(
                        self.stream_id,
                        self.subscription_id,
                        self.offsets[i as int].partition,
                        self.offsets[i as int].offset,
                        self.now,
                    ),
                ),
            )
        } else {
            (CommitOffsetsModel { phase: CommitPhase::Finished, ..self }, StepView::Done(Ok(())))
        }
    }
}

impl Machine for CommitOffsetsModel {
    type Out = ();

    open spec fn next(self, reply: Option<ReplyView>) -> (Self, StepView<()>) {
        match (self.phase, reply) {
            (CommitPhase::Start, None) => (
                CommitOffsetsModel { phase: CommitPhase::Stream, ..self },
                StepView::Call(RequestView::Get { pk: stream_pk(self.stream_id), sk: meta_sk() }),
            ),
            (CommitPhase::Stream, Some(answer)) => {
                match stream_of_reply(answer, self.stream_id) {
                    Ok(stream) => (
                        CommitOffsetsModel {
                            phase: CommitPhase::Subscription,
                            partition_count: stream.partition_count,
                            ..self
                        },
                        StepView::Call(
                            RequestView::Get {
                                pk: stream_pk(self.stream_id),
                                sk: subscription_sk(self.subscription_id),
                            },
                        ),
                    ),
                    Err(error) => self.fail(error),
                }
            },
            (CommitPhase::Subscription, Some(answer)) => {
                match subscription_of_reply(answer, self.subscription_id) {
                    Ok(_) => {
                        if partitions_in_range(self.offsets, self.partition_count) {
                            self.write(0)
                        } else {
                            self.fail(out_of_range())
                        }
                    },
                    Err(error) => self.fail(error),
                }
            },
            (CommitPhase::Writing(i), Some(answer)) => {
                if i < self.offsets.len() && i < usize::MAX {
                    match written_of_reply(answer) {
                        Ok(_) => self.write((i + 1) as usize),
                        Err(error) => self.fail(error),
                    }
                } else {
                    self.fail(unexpected_reply())
                }
            },
            _ => self.fail(unexpected_reply()),
        }
    }

    open spec fn budget(self) -> nat {
        match self.phase {
            CommitPhase::Start => self.offsets.len() + 3,
            CommitPhase::Stream => self.offsets.len() + 2,
            CommitPhase::Subscription => self.offsets.len() + 1,
            CommitPhase::Writing(i) => if i < self.offsets.len() {
                (self.offsets.len() - i) as nat
            } else {
                0
            },
            CommitPhase::Finished => 0,
        }
    }

    proof fn lemma_budget(self, reply: Option<ReplyView>) {
    }
}

impl View for CommitOffsets {
    type V = CommitOffsetsModel;

    closed spec fn view(&self) -> CommitOffsetsModel {
        CommitOffsetsModel {
            stream_id: self.stream_id@,
            subscription_id: self.subscription_id@,
            offsets: self.offsets@,
            now: self.now,
            partition_count: self.partition_count,
            phase: self.phase,
        }
    }
}

impl CommitOffsets {
    /// Starts the committing of `offsets` for a subscription; `now` becomes
    /// the time of the commit. The operation reads the stream and the
    /// subscription before it writes, and ends with `StreamNotFound`,
    /// `SubscriptionNotFound` or `InvalidCursor` where one is not there or
    /// the stream lacks a partition that the offsets name.
    pub fn new(
        stream_id: &str,
        subscription_id: &str,
        offsets: Vec<PartitionOffset>,
        now: Timestamp,
    ) -> (operation: Self)
        ensures
            operation@ == CommitOffsetsModel::start(
                stream_id@,
                subscription_id@,
                offsets@,
                now,
            ),
    {
        CommitOffsets {
            stream_id: String::from_str(stream_id),
            subscription_id: String::from_str(subscription_id),
            offsets,
            now,
            partition_count: 0,
            phase: CommitPhase::Start,
        }
    }

    /// Starts the committing of a cursor. A text that is no cursor gives
    /// `InvalidCursor`, and nothing is asked of the table.
    pub fn from_cursor(
        stream_id: &str,
        subscription_id: &str,
        cursor: &str,
        now: Timestamp,
    ) -> (operation: Result<Self, Error>)
        ensures
            match decoded_cursor(cursor@) {
                Ok(offsets) => operation is Ok && operation->Ok_0@ == CommitOffsetsModel::start(
                    stream_id@,
                    subscription_id@,
                    offsets,
                    now,
                ),
                Err(error) => operation is Err && operation->Err_0@ == error,
            },
    {
        match decode_cursor(cursor) {
            Ok(state) => Ok(CommitOffsets::new(stream_id, subscription_id, state.offsets, now)),
            Err(error) => Err(error),
        }
    }

    fn at(self, phase: CommitPhase) -> (moved: Self)
        ensures
            moved@ == (CommitOffsetsModel { phase, ..self@ }),
    {
        CommitOffsets {
            stream_id: self.stream_id,
            subscription_id: self.subscription_id,
            offsets: self.offsets,
            now: self.now,
            partition_count: self.partition_count,
            phase,
        }
    }

    fn fail(self, error: Error) -> (after: (Self, Step<()>))
        ensures
            (after.0@, after.1.shape()) == self@.fail(error@),
    {
        (self.at(CommitPhase::Finished), Step::Done(Err(error)))
    }

    fn write(self, i: usize) -> (after: (Self, Step<()>))
        ensures
            (after.0@, after.1.shape()) == self@.write(i),
    {
        if i < self.offsets.len() {
            let request = set_offset_request(
                self.stream_id.as_str(),
                self.subscription_id.as_str(),
                self.offsets[i].partition,
                self.offsets[i].offset,
                self.now,
            );
            (self.at(CommitPhase::Writing(i)), Step::Call(request))
        } else {
            (self.at(CommitPhase::Finished), Step::Done(Ok(())))
        }
    }

    /// Takes one step: the first with no reply, each later one with the
    /// table's reply to the request of the step before.
    pub fn step(self, reply: Option<StoreReply>) -> (after: (Self, Step<()>))
        ensures
            (after.0@, after.1.shape()) == self@.next(reply.deep_view()),
    {
        match (self.phase, reply) {
            (CommitPhase::Start, None) => {
                let request = stream_request(self.stream_id.as_str());
                (self.at(CommitPhase::Stream), Step::Call(request))
            },
            (CommitPhase::Stream, Some(answer)) => {
                match stream_from_reply(answer, self.stream_id.as_str()) {
                    Ok(stream) => {
                        let request = subscription_request(
                            self.stream_id.as_str(),
                            self.subscription_id.as_str(),
                        );
                        (
                            CommitOffsets {
                                stream_id: self.stream_id,
                                subscription_id: self.subscription_id,
                                offsets: self.offsets,
                                now: self.now,
                                partition_count: stream.partition_count,
                                phase: CommitPhase::Subscription,
                            },
                            Step::Call(request),
                        )
                    },
                    Err(error) => self.fail(error),
                }
            },
            (CommitPhase::Subscription, Some(answer)) => {
                match subscription_from_reply(answer, self.subscription_id.as_str()) {
                    Ok(_) => {
                        if all_in_range(&self.offsets, self.partition_count) {
                            self.write(0)
                        } else {
                            self.fail(
                                Error::InvalidCursor(String::from_str("partition out of range")),
                            )
                        }
                    },
                    Err(error) => self.fail(error),
                }
            },
            (CommitPhase::Writing(i), Some(answer)) => {
                if i < self.offsets.len() {
                    match written_from_reply(answer) {
                        Ok(_) => self.write(i + 1),
                        Err(error) => self.fail(error),
                    }
                } else {
                    self.fail(unexpected())
                }
            },
            _ => self.fail(unexpected()),
        }
    }
}

impl CommitResponse {
    /// The response to a commit whose offsets were all written.
    pub fn committed() -> (response: Self)
        ensures
            response.success,
    {
        CommitResponse { success: true }
    }
}

} // verus!
