//! What every operation of the log keeps true of the table.
//!
//! An event stands under the partition key of its stream and partition and
//! under the sort key of its sequence number. No operation writes an event
//! anywhere else, so a table that the log alone has written has every event
//! under its own keys; the laws of the poll path rest on that.

use crate::compactor::CompactionModel;
use crate::laws::tables::{events_keyed, lemma_proceed_keeps_events_keyed, writes_events_keyed};
use crate::poll::PollModel;
use crate::publisher::PublishModel;
use crate::registry::{CreateStreamModel, DeleteStreamModel};
use crate::store::{run, Entry, Machine};
use crate::subscriptions::{CommitOffsetsModel, CreateSubscriptionModel};
use vstd::prelude::*;

verus! {

/// A table without rows has every event under its own keys.
pub proof fn law_empty_table_events_keyed()
    ensures
        events_keyed(Seq::<Entry>::empty()),
{
}

/// Creating a stream keeps every event under its own keys.
pub proof fn law_create_stream_keeps_events_keyed(
    m: CreateStreamModel,
    table: Seq<Entry>,
    fuel: nat,
)
    requires
        events_keyed(table),
    ensures
        events_keyed(run(m, table, fuel).0),
{
    assert(writes_events_keyed::<CreateStreamModel>());
    lemma_proceed_keeps_events_keyed(m.next(None), table, fuel);
}

/// Deleting a stream keeps every event under its own keys.
pub proof fn law_delete_stream_keeps_events_keyed(
    m: DeleteStreamModel,
    table: Seq<Entry>,
    fuel: nat,
)
    requires
        events_keyed(table),
    ensures
        events_keyed(run(m, table, fuel).0),
{
    assert(writes_events_keyed::<DeleteStreamModel>());
    lemma_proceed_keeps_events_keyed(m.next(None), table, fuel);
}

/// Publishing writes every event under its own keys, and keeps the others
/// there.
pub proof fn law_publish_keeps_events_keyed(m: PublishModel, table: Seq<Entry>, fuel: nat)
    requires
        events_keyed(table),
    ensures
        events_keyed(run(m, table, fuel).0),
{
    assert(writes_events_keyed::<PublishModel>());
    lemma_proceed_keeps_events_keyed(m.next(None), table, fuel);
}

/// Creating a subscription keeps every event under its own keys.
pub proof fn law_create_subscription_keeps_events_keyed(
    m: CreateSubscriptionModel,
    table: Seq<Entry>,
    fuel: nat,
)
    requires
        events_keyed(table),
    ensures
        events_keyed(run(m, table, fuel).0),
{
    assert(writes_events_keyed::<CreateSubscriptionModel>());
    lemma_proceed_keeps_events_keyed(m.next(None), table, fuel);
}

/// Committing offsets keeps every event under its own keys.
pub proof fn law_commit_keeps_events_keyed(m: CommitOffsetsModel, table: Seq<Entry>, fuel: nat)
    requires
        events_keyed(table),
    ensures
        events_keyed(run(m, table, fuel).0),
{
    assert(writes_events_keyed::<CommitOffsetsModel>());
    lemma_proceed_keeps_events_keyed(m.next(None), table, fuel);
}

/// Polling keeps every event under its own keys.
pub proof fn law_poll_keeps_events_keyed(m: PollModel, table: Seq<Entry>, fuel: nat)
    requires
        events_keyed(table),
    ensures
        events_keyed(run(m, table, fuel).0),
{
    assert(writes_events_keyed::<PollModel>());
    lemma_proceed_keeps_events_keyed(m.next(None), table, fuel);
}

/// Compacting a change keeps every event under its own keys.
pub proof fn law_compaction_keeps_events_keyed(m: CompactionModel, table: Seq<Entry>, fuel: nat)
    requires
        events_keyed(table),
    ensures
        events_keyed(run(m, table, fuel).0),
{
    assert(writes_events_keyed::<CompactionModel>());
    lemma_proceed_keeps_events_keyed(m.next(None), table, fuel);
}

} // verus!
