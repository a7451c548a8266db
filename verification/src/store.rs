//! The table behind the log, seen from the log's side.
//!
//! The log never touches the table itself. An operation hands out one
//! [`StoreRequest`] at a time and is resumed with the [`StoreReply`]; whoever
//! drives the operation carries the request to the table. What a table is
//! expected to answer is written down here as a mathematical model, a list of
//! rows with [`answer`] as its one operation, and the laws of the log are
//! proved of operations that run against that model.

use crate::errors::{Error, ErrorView};
use crate::keys::meta_sk;
use crate::models::{
    CompactedEvent, CompactedEventView, Event, EventView, Stream, StreamView, Subscription,
    SubscriptionView, Timestamp,
};
use crate::text::{has_prefix, lex_less};
use vstd::prelude::*;

verus! {

/// One row of the table, by what it holds.
#[derive(Debug, PartialEq, Eq)]
pub enum Row {
    /// Metadata of a stream.
    Stream(Stream),
    /// Registration of a subscription.
    Subscription(Subscription),
    /// The last sequence number given out in a partition.
    Counter(u64),
    /// An appended event.
    Event(Event),
    /// The last committed sequence number of a subscription in a partition.
    Offset { offset: u64, committed_at: Timestamp },
    /// The latest event of a key.
    Compacted(CompactedEvent),
    /// A row that could not be decoded, with the decoder's message.
    Unreadable(String),
}

/// The mathematical value of a [`Row`].
pub enum RowView {
    Stream(StreamView),
    Subscription(SubscriptionView),
    Counter(u64),
    Event(EventView),
    Offset { offset: u64, committed_at: Timestamp },
    Compacted(CompactedEventView),
    Unreadable(Seq<char>),
}

impl View for Row {
    type V = RowView;

    open spec fn view(&self) -> RowView {
        match self {
            Row::Stream(s) => RowView::Stream(s@),
            Row::Subscription(s) => RowView::Subscription(s@),
            Row::Counter(n) => RowView::Counter(*n),
            Row::Event(e) => RowView::Event(e@),
            Row::Offset { offset, committed_at } => RowView::Offset {
                offset: *offset,
                committed_at: *committed_at,
            },
            Row::Compacted(c) => RowView::Compacted(c@),
            Row::Unreadable(m) => RowView::Unreadable(m@),
        }
    }
}

impl DeepView for Row {
    type V = RowView;

    open spec fn deep_view(&self) -> RowView {
        self@
    }
}

impl Clone for Row {
    fn clone(&self) -> (copy: Self)
        ensures
            copy@ == self@,
    {
        match self {
            Row::Stream(s) => Row::Stream(s.clone()),
            Row::Subscription(s) => Row::Subscription(s.clone()),
            Row::Counter(n) => Row::Counter(*n),
            Row::Event(e) => Row::Event(e.clone()),
            Row::Offset { offset, committed_at } => Row::Offset {
                offset: *offset,
                committed_at: *committed_at,
            },
            Row::Compacted(c) => Row::Compacted(c.clone()),
            Row::Unreadable(m) => Row::Unreadable(m.clone()),
        }
    }
}

/// What an operation asks of the table.
#[derive(Debug, Clone, PartialEq, Eq)]
pub enum StoreRequest {
    /// Read the row at a key.
    Get { pk: String, sk: String },
    /// Write a row, replacing what the key held.
    Put { pk: String, sk: String, row: Row },
    /// Write a row unless the key holds one.
    PutIfAbsent { pk: String, sk: String, row: Row },
    /// Remove the row at a key, if there is one.
    Delete { pk: String, sk: String },
    /// Add one to the counter at a key, in one step, and read the new row.
    Increment { pk: String, sk: String },
    /// Read the rows of a partition key whose sort key comes after `after`,
    /// in the order of their sort keys, `limit` of them at most.
    QueryAfter { pk: String, after: String, limit: u32 },
    /// Read the rows of a partition key whose sort key begins with `prefix`.
    QueryPrefix { pk: String, prefix: String },
    /// Read the metadata rows of all streams.
    ScanStreams,
}

/// The mathematical value of a [`StoreRequest`].
pub enum RequestView {
    Get { pk: Seq<char>, sk: Seq<char> },
    Put { pk: Seq<char>, sk: Seq<char>, row: RowView },
    PutIfAbsent { pk: Seq<char>, sk: Seq<char>, row: RowView },
    Delete { pk: Seq<char>, sk: Seq<char> },
    Increment { pk: Seq<char>, sk: Seq<char> },
    QueryAfter { pk: Seq<char>, after: Seq<char>, limit: u32 },
    QueryPrefix { pk: Seq<char>, prefix: Seq<char> },
    ScanStreams,
}

impl View for StoreRequest {
    type V = RequestView;

    open spec fn view(&self) -> RequestView {
        match self {
            StoreRequest::Get { pk, sk } => RequestView::Get { pk: pk@, sk: sk@ },
            StoreRequest::Put { pk, sk, row } => RequestView::Put { pk: pk@, sk: sk@, row: row@ },
            StoreRequest::PutIfAbsent { pk, sk, row } => RequestView::PutIfAbsent {
                pk: pk@,
                sk: sk@,
                row: row@,
            },
            StoreRequest::Delete { pk, sk } => RequestView::Delete { pk: pk@, sk: sk@ },
            StoreRequest::Increment { pk, sk } => RequestView::Increment { pk: pk@, sk: sk@ },
            StoreRequest::QueryAfter { pk, after, limit } => RequestView::QueryAfter {
                pk: pk@,
                after: after@,
                limit: *limit,
            },
            StoreRequest::QueryPrefix { pk, prefix } => RequestView::QueryPrefix {
                pk: pk@,
                prefix: prefix@,
            },
            StoreRequest::ScanStreams => RequestView::ScanStreams,
        }
    }
}

/// What the table answers.
#[derive(Debug, Clone, PartialEq, Eq)]
pub enum StoreReply {
    /// The row that was read, or that an update left; `None` where there is
    /// none.
    Item(Option<Row>),
    /// The write was applied.
    Done,
    /// The key of a conditional write was taken.
    ConditionFailed,
    /// The rows that a query or scan found.
    Rows(Vec<Row>),
    /// The table failed, with its message.
    Failed(String),
}

/// The mathematical value of a [`StoreReply`].
pub enum ReplyView {
    Item(Option<RowView>),
    Done,
    ConditionFailed,
    Rows(Seq<RowView>),
    Failed(Seq<char>),
}

impl View for StoreReply {
    type V = ReplyView;

    open spec fn view(&self) -> ReplyView {
        match self {
            StoreReply::Item(Some(row)) => ReplyView::Item(Some(row@)),
            StoreReply::Item(None) => ReplyView::Item(None),
            StoreReply::Done => ReplyView::Done,
            StoreReply::ConditionFailed => ReplyView::ConditionFailed,
            StoreReply::Rows(rows) => ReplyView::Rows(rows.deep_view()),
            StoreReply::Failed(message) => ReplyView::Failed(message@),
        }
    }
}

impl DeepView for StoreReply {
    type V = ReplyView;

    open spec fn deep_view(&self) -> ReplyView {
        self@
    }
}

/// What an operation does next: ask the table, or end with its result.
#[derive(Debug, PartialEq, Eq)]
pub enum Step<T> {
    /// Carry this request to the table and come back with the reply.
    Call(StoreRequest),
    /// The operation has ended.
    Done(Result<T, Error>),
}

/// The mathematical value of a [`Step`].
pub enum StepView<V> {
    Call(RequestView),
    Done(Result<V, ErrorView>),
}

impl<T: DeepView> Step<T> {
    /// The mathematical value of this step.
    pub open spec fn shape(&self) -> StepView<T::V> {
        match self {
            Step::Call(request) => StepView::Call(request@),
            Step::Done(Ok(value)) => StepView::Done(Ok(value.deep_view())),
            Step::Done(Err(error)) => StepView::Done(Err(error@)),
        }
    }
}

/// One row of the model table, with its key.
pub struct Entry {
    pub pk: Seq<char>,
    pub sk: Seq<char>,
    pub row: RowView,
}

/// The row that the table holds at a key, if any.
pub open spec fn lookup(table: Seq<Entry>, pk: Seq<char>, sk: Seq<char>) -> Option<RowView>
    decreases table.len(),
{
    if table.len() == 0 {
        None
    } else if table.last().pk == pk && table.last().sk == sk {
        Some(table.last().row)
    } else {
        lookup(table.drop_last(), pk, sk)
    }
}

/// The table without the row at a key.
pub open spec fn without(table: Seq<Entry>, pk: Seq<char>, sk: Seq<char>) -> Seq<Entry> {
    table.filter(|e: Entry| !(e.pk == pk && e.sk == sk))
}

/// The table with a row written at a key.
pub open spec fn with_row(table: Seq<Entry>, pk: Seq<char>, sk: Seq<char>, row: RowView) -> Seq<
    Entry,
> {
    without(table, pk, sk).push(Entry { pk, sk, row })
}

/// The row of a partition key with the least sort key after `after`.
pub open spec fn least_after(table: Seq<Entry>, pk: Seq<char>, after: Seq<char>) -> Option<Entry>
    decreases table.len(),
{
    if table.len() == 0 {
        None
    } else {
        let best = least_after(table.drop_last(), pk, after);
        let e = table.last();
        if e.pk == pk && lex_less(after, e.sk) && (best is None || lex_less(e.sk, best->0.sk)) {
            Some(e)
        } else {
            best
        }
    }
}

/// The first `limit` rows of a partition key after `after`, by sort key.
pub open spec fn rows_after(table: Seq<Entry>, pk: Seq<char>, after: Seq<char>, limit: nat) -> Seq<
    RowView,
>
    decreases limit,
{
    if limit == 0 {
        Seq::empty()
    } else {
        match least_after(table, pk, after) {
            None => Seq::empty(),
            Some(e) => seq![e.row] + rows_after(table, pk, e.sk, (limit - 1) as nat),
        }
    }
}

/// The rows of a partition key whose sort key begins with `prefix`.
pub open spec fn rows_with_prefix(table: Seq<Entry>, pk: Seq<char>, prefix: Seq<char>) -> Seq<
    RowView,
> {
    table.filter(|e: Entry| e.pk == pk && has_prefix(e.sk, prefix)).map_values(|e: Entry| e.row)
}

/// The metadata rows of all streams.
pub open spec fn stream_rows(table: Seq<Entry>) -> Seq<RowView> {
    table.filter(|e: Entry| has_prefix(e.pk, "STREAM#"@) && e.sk == meta_sk()).map_values(
        |e: Entry| e.row,
    )
}

/// What a table that never fails answers to a request, and what it holds
/// afterwards.
pub open spec fn answer(table: Seq<Entry>, request: RequestView) -> (Seq<Entry>, ReplyView) {
    match request {
        RequestView::Get { pk, sk } => (table, ReplyView::Item(lookup(table, pk, sk))),
        RequestView::Put { pk, sk, row } => (with_row(table, pk, sk, row), ReplyView::Done),
        RequestView::PutIfAbsent { pk, sk, row } => {
            if lookup(table, pk, sk) is Some {
                (table, ReplyView::ConditionFailed)
            } else {
                (with_row(table, pk, sk, row), ReplyView::Done)
            }
        },
        RequestView::Delete { pk, sk } => (without(table, pk, sk), ReplyView::Done),
        RequestView::Increment { pk, sk } => {
            match lookup(table, pk, sk) {
                Some(RowView::Counter(n)) => {
                    if n < u64::MAX {
                        let row = RowView::Counter((n + 1) as u64);
                        (with_row(table, pk, sk, row), ReplyView::Item(Some(row)))
                    } else {
                        (table, ReplyView::Item(None))
                    }
                },
                _ => (table, ReplyView::Item(None)),
            }
        },
        RequestView::QueryAfter { pk, after, limit } => (
            table,
            ReplyView::Rows(rows_after(table, pk, after, limit as nat)),
        ),
        RequestView::QueryPrefix { pk, prefix } => (
            table,
            ReplyView::Rows(rows_with_prefix(table, pk, prefix)),
        ),
        RequestView::ScanStreams => (table, ReplyView::Rows(stream_rows(table))),
    }
}

/// The mathematical model of an operation: from its state and the table's
/// last reply to its next state and what it does next. The first step is
/// taken with no reply.
pub trait Machine: Sized {
    /// What the operation returns when it succeeds.
    type Out;

    /// One step of the operation.
    spec fn next(self, reply: Option<ReplyView>) -> (Self, StepView<Self::Out>);

    /// A bound on the number of requests that the operation still makes.
    spec fn budget(self) -> nat;

    /// Every request uses up some of the budget, whatever the reply was.
    proof fn lemma_budget(self, reply: Option<ReplyView>)
        ensures
            self.next(reply).1 is Call ==> self.next(reply).0.budget() < self.budget(),
    ;
}

/// Every operation ends: run for as many requests as its budget allows, it
/// comes to its result.
pub proof fn law_operation_ends<M: Machine>(
    state: (M, StepView<M::Out>),
    table: Seq<Entry>,
    fuel: nat,
)
    requires
        state.1 is Call ==> fuel > state.0.budget(),
    ensures
        proceed(state, table, fuel).1 is Some,
    decreases fuel,
{
    match state.1 {
        StepView::Call(request) => {
            let (after, reply) = answer(table, request);
            state.0.lemma_budget(Some(reply));
            law_operation_ends(state.0.next(Some(reply)), after, (fuel - 1) as nat);
        },
        StepView::Done(_) => {},
    }
}

/// More fuel changes nothing for an operation that came to its end.
pub proof fn lemma_more_fuel<M: Machine>(
    state: (M, StepView<M::Out>),
    table: Seq<Entry>,
    fuel: nat,
    more: nat,
)
    requires
        proceed(state, table, fuel).1 is Some,
        more >= fuel,
    ensures
        proceed(state, table, more) == proceed(state, table, fuel),
    decreases fuel,
{
    match state.1 {
        StepView::Call(request) => {
            let (after, reply) = answer(table, request);
            lemma_more_fuel(
                state.0.next(Some(reply)),
                after,
                (fuel - 1) as nat,
                (more - 1) as nat,
            );
        },
        StepView::Done(_) => {},
    }
}

/// Every operation ends when it is run from its first step for more requests
/// than its budget.
pub proof fn law_run_ends<M: Machine>(machine: M, table: Seq<Entry>, fuel: nat)
    requires
        fuel >= machine.budget(),
    ensures
        run(machine, table, fuel).1 is Some,
{
    machine.lemma_budget(None);
    law_operation_ends(machine.next(None), table, fuel);
}

/// Goes on from one step of an operation against the model table, for at
/// most `fuel` requests: the table afterwards, and the result if the
/// operation came to its end.
pub open spec fn proceed<M: Machine>(
    state: (M, StepView<M::Out>),
    table: Seq<Entry>,
    fuel: nat,
) -> (Seq<Entry>, Option<Result<M::Out, ErrorView>>)
    decreases fuel,
{
    match state.1 {
        StepView::Done(result) => (table, Some(result)),
        StepView::Call(request) => {
            if fuel == 0 {
                (table, None)
            } else {
                let (table_after, reply) = answer(table, request);
                proceed(state.0.next(Some(reply)), table_after, (fuel - 1) as nat)
            }
        },
    }
}

/// Runs an operation from its first step against the model table, for at
/// most `fuel` requests: the table afterwards, and the result if the
/// operation came to its end.
pub open spec fn run<M: Machine>(machine: M, table: Seq<Entry>, fuel: nat) -> (
    Seq<Entry>,
    Option<Result<M::Out, ErrorView>>,
) {
    proceed(machine.next(None), table, fuel)
}

/// A row just written is the row that is read.
pub proof fn lemma_lookup_written(table: Seq<Entry>, pk: Seq<char>, sk: Seq<char>, row: RowView)
    ensures
        lookup(with_row(table, pk, sk, row), pk, sk) == Some(row),
{
    let t = without(table, pk, sk);
    assert(t.push(Entry { pk, sk, row }).drop_last() =~= t);
}

/// Removing a key leaves nothing there and every other key as it was.
pub proof fn lemma_lookup_without(
    table: Seq<Entry>,
    pk: Seq<char>,
    sk: Seq<char>,
    pk2: Seq<char>,
    sk2: Seq<char>,
)
    ensures
        lookup(without(table, pk, sk), pk2, sk2) == if pk2 == pk && sk2 == sk {
            None
        } else {
            lookup(table, pk2, sk2)
        },
    decreases table.len(),
{
    reveal(Seq::filter);
    let keep = |e: Entry| !(e.pk == pk && e.sk == sk);
    if table.len() > 0 {
        lemma_lookup_without(table.drop_last(), pk, sk, pk2, sk2);
        let rest = table.drop_last().filter(keep);
        if keep(table.last()) {
            assert(table.filter(keep) == rest.push(table.last()));
            assert(rest.push(table.last()).drop_last() =~= rest);
        } else {
            assert(table.filter(keep) == rest);
        }
    }
}

/// Writing a key leaves every other key as it was.
pub proof fn lemma_lookup_other(
    table: Seq<Entry>,
    pk: Seq<char>,
    sk: Seq<char>,
    row: RowView,
    pk2: Seq<char>,
    sk2: Seq<char>,
)
    requires
        !(pk2 == pk && sk2 == sk),
    ensures
        lookup(with_row(table, pk, sk, row), pk2, sk2) == lookup(table, pk2, sk2),
{
    let t = without(table, pk, sk);
    assert(t.push(Entry { pk, sk, row }).drop_last() =~= t);
    lemma_lookup_without(table, pk, sk, pk2, sk2);
}

} // verus!
