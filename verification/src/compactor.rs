//! The compactor: keeping the latest event of every key.
//!
//! The table reports each change of a row. For every event row that was
//! written, the compactor stores the event as the compacted state of its key,
//! unless the state already there has the same or a later sequence number.
//! So a change that is reported twice, or after a later one, changes nothing.
//! Where the state that is there cannot be read, nothing is written and the
//! change ends with the error.

use crate::errors::{Error, ErrorView};
use crate::json::{is_json, json_string, json_string_of, json_well_formed};
use crate::keys::{compacted_partition_key, compacted_pk, compacted_sk, compacted_sort_key};
use crate::models::{rfc3339_instant, CompactedEvent, CompactedEventView, Timestamp};
use crate::replies::{
    compacted_from_reply, compacted_of_reply, unexpected, unexpected_reply, written_from_reply,
    written_of_reply, ResultShape,
};
use crate::store::{
    Machine, ReplyView, RequestView, Row, RowView, Step, StepView, StoreReply, StoreRequest,
};
use crate::text::{
    find_member, has_prefix, member_of, names_of, parse_u32, parse_u64, parse_unsigned, same_text,
    starts_with,
};
use vstd::prelude::*;
use vstd::string::StringExecFns;

verus! {

/// The value of one attribute of a changed row.
#[derive(Debug, Clone, PartialEq, Eq)]
pub enum Attribute {
    /// A string.
    S(String),
    /// A number, in decimal.
    N(String),
    /// A value of any other type, as JSON text.
    Json(String),
}

/// The mathematical value of an [`Attribute`].
pub enum AttributeView {
    S(Seq<char>),
    N(Seq<char>),
    Json(Seq<char>),
}

impl View for Attribute {
    type V = AttributeView;

    open spec fn view(&self) -> AttributeView {
        match self {
            Attribute::S(s) => AttributeView::S(s@),
            Attribute::N(n) => AttributeView::N(n@),
            Attribute::Json(t) => AttributeView::Json(t@),
        }
    }
}

impl DeepView for Attribute {
    type V = AttributeView;

    open spec fn deep_view(&self) -> AttributeView {
        self@
    }
}

/// One change of a row, as the table reports it.
#[derive(Debug, Clone, PartialEq, Eq)]
pub struct ChangeRecord {
    /// What was done to the row: `INSERT`, `MODIFY` or `REMOVE`.
    pub event_name: String,
    /// The attributes of the row after the change, by name.
    pub new_image: Vec<(String, Attribute)>,
}

/// The mathematical value of a [`ChangeRecord`].
pub struct ChangeRecordView {
    pub event_name: Seq<char>,
    pub new_image: Seq<(Seq<char>, AttributeView)>,
}

impl View for ChangeRecord {
    type V = ChangeRecordView;

    open spec fn view(&self) -> ChangeRecordView {
        ChangeRecordView {
            event_name: self.event_name@,
            new_image: self.new_image.deep_view(),
        }
    }
}

/// The string that an image holds under a name, if it holds a string there.
pub open spec fn text_attribute(image: Seq<(Seq<char>, AttributeView)>, name: Seq<char>) -> Option<
    Seq<char>,
> {
    match member_of(image, name) {
        Some(AttributeView::S(s)) => Some(s),
        _ => None,
    }
}

/// The number that an image holds under a name, if it holds one there that
/// is at most `max`.
pub open spec fn number_attribute(
    image: Seq<(Seq<char>, AttributeView)>,
    name: Seq<char>,
    max: nat,
) -> Option<nat> {
    match member_of(image, name) {
        Some(AttributeView::N(n)) => parse_unsigned(n, max),
        _ => None,
    }
}

/// The payload of the event in an image, as JSON text, whatever its type: a
/// string is written as a JSON string, a number stands as it is written, and
/// a value of another type is given in JSON as it is. Where there is no
/// payload, or a number that JSON cannot hold, the payload is `null`.
pub open spec fn data_of(image: Seq<(Seq<char>, AttributeView)>) -> Seq<char> {
    match member_of(image, "data"@) {
        Some(AttributeView::S(s)) => json_string(s),
        Some(AttributeView::N(n)) => if json_well_formed(n) {
            n
        } else {
            "null"@
        },
        Some(AttributeView::Json(t)) => t,
        None => "null"@,
    }
}

/// The timestamp of the event in an image: the instant that its `timestamp`
/// names, or `now` where there is none or it cannot be read.
pub open spec fn timestamp_of(image: Seq<(Seq<char>, AttributeView)>, now: Timestamp) -> Timestamp {
    match text_attribute(image, "timestamp"@) {
        Some(s) => match rfc3339_instant(s) {
            Some(at) => Timestamp { seconds: at.0, nanos: at.1 },
            None => now,
        },
        None => now,
    }
}

/// Whether a change concerns the compactor: an insert or a modification
/// whose new image is the row of an event.
pub open spec fn is_event_upsert(record: ChangeRecordView) -> bool {
    &&& (record.event_name == "INSERT"@ || record.event_name == "MODIFY"@)
    &&& record.new_image.len() > 0
    &&& has_prefix(
        match text_attribute(record.new_image, "SK"@) {
            Some(sk) => sk,
            None => Seq::empty(),
        },
        "SEQ#"@,
    )
}

/// What a change asks of the compacted state: nothing, where it does not
/// concern the compactor; the state to store, where it is the row of an
/// event; an error, where such a row lacks its stream, key, type, sequence
/// number or partition.
pub open spec fn planned(record: ChangeRecordView, now: Timestamp) -> Result<
    Option<CompactedEventView>,
    ErrorView,
> {
    let image = record.new_image;
    if !is_event_upsert(record) {
        Ok(None)
    } else if text_attribute(image, "stream_id"@) is None {
        Err(ErrorView::Validation("Missing stream_id"@))
    } else if text_attribute(image, "key"@) is None {
        Err(ErrorView::Validation("Missing key"@))
    } else if text_attribute(image, "event_type"@) is None {
        Err(ErrorView::Validation("Missing event_type"@))
    } else if number_attribute(image, "sequence"@, u64::MAX as nat) is None {
        Err(ErrorView::Validation("Missing or invalid sequence"@))
    } else if number_attribute(image, "partition"@, u32::MAX as nat) is None {
        Err(ErrorView::Validation("Missing or invalid partition"@))
    } else {
        Ok(
            Some(
                CompactedEventView {
                    stream_id: text_attribute(image, "stream_id"@)->0,
                    key: text_attribute(image, "key"@)->0,
                    event_type: text_attribute(image, "event_type"@)->0,
                    data: data_of(image),
                    sequence: number_attribute(image, "sequence"@, u64::MAX as nat)->0 as u64,
                    partition: number_attribute(image, "partition"@, u32::MAX as nat)->0 as u32,
                    timestamp: timestamp_of(image, now),
                },
            ),
        )
    }
}

/// Reads the attribute that an image holds under a name.
fn attribute<'a>(image: &'a Vec<(String, Attribute)>, name: &str) -> (found: Option<&'a Attribute>)
    ensures
        match member_of(image.deep_view(), name@) {
            Some(value) => found is Some && found->0@ == value,
            None => found is None,
        },
{
    assert(image.deep_view().map_values(|m: (Seq<char>, AttributeView)| m.0) =~= names_of(
        image@,
    ));
    match find_member(image, name) {
        Some(i) => Some(&image[i].1),
        None => None,
    }
}

/// Reads the string that an image holds under a name.
fn text_of<'a>(image: &'a Vec<(String, Attribute)>, name: &str) -> (found: Option<&'a String>)
    ensures
        match text_attribute(image.deep_view(), name@) {
            Some(text) => found is Some && found->0@ == text,
            None => found is None,
        },
{
    match attribute(image, name) {
        Some(Attribute::S(s)) => Some(s),
        _ => None,
    }
}

/// Reads the number that an image holds under a name.
fn number_of<'a>(image: &'a Vec<(String, Attribute)>, name: &str) -> (found: Option<&'a String>)
    ensures
        match member_of(image.deep_view(), name@) {
            Some(AttributeView::N(n)) => found is Some && found->0@ == n,
            _ => found is None,
        },
{
    match attribute(image, name) {
        Some(Attribute::N(n)) => Some(n),
        _ => None,
    }
}

/// Reads the payload of the event in an image.
fn data_from(image: &Vec<(String, Attribute)>) -> (data: String)
    ensures
        data@ == data_of(image.deep_view()),
{
    match attribute(image, "data") {
        Some(Attribute::S(s)) => json_string_of(s.as_str()),
        Some(Attribute::N(n)) => {
            if is_json(n.as_str()) {
                n.clone()
            } else {
                String::from_str("null")
            }
        },
        Some(Attribute::Json(t)) => t.clone(),
        None => String::from_str("null"),
    }
}

/// Reads the timestamp of the event in an image.
fn timestamp_from(image: &Vec<(String, Attribute)>, now: Timestamp) -> (at: Timestamp)
    ensures
        at == timestamp_of(image.deep_view(), now),
{
    match text_of(image, "timestamp") {
        Some(s) => match Timestamp::parse_rfc3339(s.as_str()) {
            Some(at) => at,
            None => now,
        },
        None => now,
    }
}

/// Tells whether a change concerns the compactor.
fn concerns_compactor(record: &ChangeRecord) -> (concerned: bool)
    ensures
        concerned == is_event_upsert(record@),
{
    let name = record.event_name.as_str();
    if !same_text(name, "INSERT") && !same_text(name, "MODIFY") {
        return false;
    }
    if record.new_image.len() == 0 {
        return false;
    }
    match text_of(&record.new_image, "SK") {
        Some(sk) => starts_with(sk.as_str(), "SEQ#"),
        None => {
            proof {
                reveal_strlit("SEQ#");
            }
            false
        },
    }
}

/// Works out what a change asks of the compacted state; `now` stands in for
/// a timestamp that the changed row lacks.
pub fn plan_compaction(record: &ChangeRecord, now: Timestamp) -> (plan: Result<
    Option<CompactedEvent>,
    Error,
>)
    ensures
        plan.deep_view_result() == planned(record@, now),
{
    if !concerns_compactor(record) {
        return Ok(None);
    }
    let image = &record.new_image;
    let stream_id = match text_of(image, "stream_id") {
        Some(s) => s.clone(),
        None => {
            return Err(Error::Validation(String::from_str("Missing stream_id")));
        },
    };
    let key = match text_of(image, "key") {
        Some(s) => s.clone(),
        None => {
            return Err(Error::Validation(String::from_str("Missing key")));
        },
    };
    let event_type = match text_of(image, "event_type") {
        Some(s) => s.clone(),
        None => {
            return Err(Error::Validation(String::from_str("Missing event_type")));
        },
    };
    let sequence_text = number_of(image, "sequence");
    let sequence: u64 = match sequence_text {
        Some(n) => match parse_u64(n.as_str()) {
            Some(v) => v,
            None => {
                return Err(Error::Validation(String::from_str("Missing or invalid sequence")));
            },
        },
        None => {
            return Err(Error::Validation(String::from_str("Missing or invalid sequence")));
        },
    };
    let partition_text = number_of(image, "partition");
    let partition: u32 = match partition_text {
        Some(n) => match parse_u32(n.as_str()) {
            Some(v) => v,
            None => {
                return Err(Error::Validation(String::from_str("Missing or invalid partition")));
            },
        },
        None => {
            return Err(Error::Validation(String::from_str("Missing or invalid partition")));
        },
    };
    let data = data_from(image);
    let timestamp = timestamp_from(image, now);
    Ok(Some(CompactedEvent { stream_id, key, event_type, data, sequence, partition, timestamp }))
}

/// The request that writes the compacted state of a key.
pub fn put_compacted_request(state: &CompactedEvent) -> (request: StoreRequest)
    ensures
        request@ == (RequestView::Put {
            pk: compacted_pk(state.stream_id@),
            sk: compacted_sk(state.key@),
            row: RowView::Compacted(state@),
        }),
{
    StoreRequest::Put {
        pk: compacted_partition_key(state.stream_id.as_str()),
        sk: compacted_sort_key(state.key.as_str()),
        row: Row::Compacted(state.clone()),
    }
}

/// The request that reads the compacted state of a key.
pub fn get_compacted_request(stream_id: &str, key: &str) -> (request: StoreRequest)
    ensures
        request@ == (RequestView::Get { pk: compacted_pk(stream_id@), sk: compacted_sk(key@) }),
{
    StoreRequest::Get { pk: compacted_partition_key(stream_id), sk: compacted_sort_key(key) }
}

/// The request that reads the compacted state of all keys of a stream.
pub fn list_compacted_request(stream_id: &str) -> (request: StoreRequest)
    ensures
        request@ == (RequestView::QueryPrefix { pk: compacted_pk(stream_id@), prefix: "KEY#"@ }),
{
    StoreRequest::QueryPrefix {
        pk: compacted_partition_key(stream_id),
        prefix: String::from_str("KEY#"),
    }
}

/// What the compactor did with a change.
#[derive(Debug, Clone, Copy, PartialEq, Eq, Structural)]
pub enum CompactionOutcome {
    /// The change does not concern the compactor.
    Skipped,
    /// The compacted state is as new as the change, or newer.
    Stale,
    /// The event of the change is now the compacted state of its key.
    Updated,
}

impl DeepView for CompactionOutcome {
    type V = CompactionOutcome;

    open spec fn deep_view(&self) -> CompactionOutcome {
        *self
    }
}

/// How far the compaction of a change has come.
#[derive(Debug, Clone, Copy, PartialEq, Eq, Structural)]
pub enum CompactionPhase {
    /// Nothing was asked yet.
    Start,
    /// The compacted state of the key is being read.
    Reading,
    /// The new state is being written.
    Writing,
    /// The operation has ended.
    Finished,
}

/// The compaction of one change, one request at a time.
#[derive(Debug, PartialEq, Eq)]
pub struct Compaction {
    plan: Result<Option<CompactedEvent>, Error>,
    phase: CompactionPhase,
}

/// The mathematical model of [`Compaction`].
pub struct CompactionModel {
    pub plan: Result<Option<CompactedEventView>, ErrorView>,
    pub phase: CompactionPhase,
}

/// The write that makes an event the compacted state of its key.
pub open spec fn compacted_write(state: CompactedEventView) -> RequestView {
    RequestView::Put {
        pk: compacted_pk(state.stream_id),
        sk: compacted_sk(state.key),
        row: RowView::Compacted(state),
    }
}

impl CompactionModel {
    /// The compaction of a change, before its first step.
    pub open spec fn start(record: ChangeRecordView, now: Timestamp) -> Self {
        CompactionModel { plan: planned(record, now), phase: CompactionPhase::Start }
    }

    /// Ends the operation.
    pub open spec fn end(self, result: Result<CompactionOutcome, ErrorView>) -> (
        Self,
        StepView<CompactionOutcome>,
    ) {
        (CompactionModel { phase: CompactionPhase::Finished, ..self }, StepView::Done(result))
    }
}

impl Machine for CompactionModel {
    type Out = CompactionOutcome;

    open spec fn next(self, reply: Option<ReplyView>) -> (Self, StepView<CompactionOutcome>) {
        match (self.phase, reply, self.plan) {
            (CompactionPhase::Start, None, Err(error)) => self.end(Err(error)),
            (CompactionPhase::Start, None, Ok(None)) => self.end(Ok(CompactionOutcome::Skipped)),
            (CompactionPhase::Start, None, Ok(Some(state))) => (
                CompactionModel { phase: CompactionPhase::Reading, ..self },
                StepView::Call(
                    RequestView::Get {
                        pk: compacted_pk(state.stream_id),
                        sk: compacted_sk(state.key),
                    },
                ),
            ),
            (CompactionPhase::Reading, Some(answer), Ok(Some(state))) => {
                match compacted_of_reply(answer) {
                    Ok(Some(existing)) => {
                        if existing.sequence >= state.sequence {
                            self.end(Ok(CompactionOutcome::Stale))
                        } else {
                            (
                                CompactionModel { phase: CompactionPhase::Writing, ..self },
                                StepView::Call(compacted_write(state)),
                            )
                        }
                    },
                    Ok(None) => (
                        CompactionModel { phase: CompactionPhase::Writing, ..self },
                        StepView::Call(compacted_write(state)),
                    ),
                    Err(error) => self.end(Err(error)),
                }
            },
            (CompactionPhase::Writing, Some(answer), _) => {
                match written_of_reply(answer) {
                    Ok(_) => self.end(Ok(CompactionOutcome::Updated)),
                    Err(error) => self.end(Err(error)),
                }
            },
            _ => self.end(Err(unexpected_reply())),
        }
    }

    open spec fn budget(self) -> nat {
        match self.phase {
            CompactionPhase::Start => 3,
            CompactionPhase::Reading => 2,
            CompactionPhase::Writing => 1,
            CompactionPhase::Finished => 0,
        }
    }

    proof fn lemma_budget(self, reply: Option<ReplyView>) {
    }
}

impl View for Compaction {
    type V = CompactionModel;

    closed spec fn view(&self) -> CompactionModel {
        CompactionModel { plan: self.plan.deep_view_result(), phase: self.phase }
    }
}

impl Compaction {
    /// Starts the compaction of a change; `now` stands in for a timestamp
    /// that the changed row lacks.
    pub fn new(record: &ChangeRecord, now: Timestamp) -> (operation: Self)
        ensures
            operation@ == CompactionModel::start(record@, now),
    {
        Compaction { plan: plan_compaction(record, now), phase: CompactionPhase::Start }
    }

    fn end(self, result: Result<CompactionOutcome, Error>) -> (after: (
        Self,
        Step<CompactionOutcome>,
    ))
        ensures
            (after.0@, after.1.shape()) == self@.end(result.deep_view_result()),
    {
        (Compaction { plan: self.plan, phase: CompactionPhase::Finished }, Step::Done(result))
    }

    /// Takes one step: the first with no reply, each later one with the
    /// table's reply to the request of the step before.
    pub fn step(self, reply: Option<StoreReply>) -> (after: (Self, Step<CompactionOutcome>))
        ensures
            (after.0@, after.1.shape()) == self@.next(reply.deep_view()),
    {
        match (self.phase, reply) {
            (CompactionPhase::Start, None) => {
                match &self.plan {
                    Err(error) => {
                        let error = error.clone();
                        self.end(Err(error))
                    },
                    Ok(None) => self.end(Ok(CompactionOutcome::Skipped)),
                    Ok(Some(state)) => {
                        let request = get_compacted_request(
                            state.stream_id.as_str(),
                            state.key.as_str(),
                        );
                        (
                            Compaction { plan: self.plan, phase: CompactionPhase::Reading },
                            Step::Call(request),
                        )
                    },
                }
            },
            (CompactionPhase::Reading, Some(answer)) => {
                match &self.plan {
                    Ok(Some(state)) => {
                        let stale = match compacted_from_reply(answer) {
                            Ok(Some(existing)) => existing.sequence >= state.sequence,
                            Ok(None) => false,
                            Err(error) => {
                                return self.end(Err(error));
                            },
                        };
                        if stale {
                            self.end(Ok(CompactionOutcome::Stale))
                        } else {
                            let request = put_compacted_request(state);
                            (
                                Compaction { plan: self.plan, phase: CompactionPhase::Writing },
                                Step::Call(request),
                            )
                        }
                    },
                    _ => self.end(Err(unexpected())),
                }
            },
            (CompactionPhase::Writing, Some(answer)) => {
                match written_from_reply(answer) {
                    Ok(_) => self.end(Ok(CompactionOutcome::Updated)),
                    Err(error) => self.end(Err(error)),
                }
            },
            _ => self.end(Err(unexpected())),
        }
    }
}

} // verus!
