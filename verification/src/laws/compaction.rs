//! Laws of the compactor.

use crate::compactor::{
    compacted_write, planned, ChangeRecordView, CompactionModel, CompactionOutcome,
};
use crate::errors::ErrorView;
use crate::keys::{compacted_pk, compacted_sk};
use crate::models::{CompactedEventView, Timestamp};
use crate::replies::compacted_of_reply;
use crate::store::{
    answer, lemma_lookup_other, lemma_lookup_written, lookup, proceed, run, with_row, Entry,
    Machine, ReplyView, RowView, StepView,
};
use vstd::prelude::*;

verus! {

/// The compacted state that the table holds for the key of `state`, as a
/// compaction reads it: the state, none, or an error where the row there is
/// no compacted state.
pub open spec fn existing_state(table: Seq<Entry>, state: CompactedEventView) -> Result<
    Option<CompactedEventView>,
    ErrorView,
> {
    compacted_of_reply(
        ReplyView::Item(lookup(table, compacted_pk(state.stream_id), compacted_sk(state.key))),
    )
}

/// Whether the table holds, for the key of `state`, compacted state that
/// is as new as `state` or newer.
pub open spec fn is_stale(table: Seq<Entry>, state: CompactedEventView) -> bool {
    match lookup(table, compacted_pk(state.stream_id), compacted_sk(state.key)) {
        Some(RowView::Compacted(existing)) => existing.sequence >= state.sequence,
        _ => false,
    }
}

/// What a compaction does to the table and how it ends: it stores the
/// state that the change asks for, unless the change asks for none, the
/// table holds state that is as new, or what the table holds for the key
/// cannot be read.
pub open spec fn compacted(
    plan: Result<Option<CompactedEventView>, ErrorView>,
    table: Seq<Entry>,
) -> (Seq<Entry>, Result<CompactionOutcome, ErrorView>) {
    match plan {
        Err(error) => (table, Err(error)),
        Ok(None) => (table, Ok(CompactionOutcome::Skipped)),
        Ok(Some(state)) => {
            if existing_state(table, state) is Err {
                (table, Err(existing_state(table, state)->Err_0))
            } else if is_stale(table, state) {
                (table, Ok(CompactionOutcome::Stale))
            } else {
                (
                    with_row(
                        table,
                        compacted_pk(state.stream_id),
                        compacted_sk(state.key),
                        RowView::Compacted(state),
                    ),
                    Ok(CompactionOutcome::Updated),
                )
            }
        },
    }
}

/// The table after the compaction of one change at the instant `now`.
pub open spec fn table_after(record: ChangeRecordView, now: Timestamp, table: Seq<Entry>) -> Seq<
    Entry,
> {
    run(CompactionModel::start(record, now), table, 2).0
}

/// The table after the compaction of one change once for each instant of
/// `nows`, in turn.
pub open spec fn table_after_replays(
    record: ChangeRecordView,
    nows: Seq<Timestamp>,
    table: Seq<Entry>,
) -> Seq<Entry>
    decreases nows.len(),
{
    if nows.len() == 0 {
        table
    } else {
        table_after_replays(record, nows.drop_first(), table_after(record, nows[0], table))
    }
}

/// A compaction ends within two requests, and does what `compacted` says.
pub proof fn law_compaction_effect(
    record: ChangeRecordView,
    now: Timestamp,
    table: Seq<Entry>,
    fuel: nat,
)
    requires
        fuel >= 2,
    ensures
        ({
            let (after, result) = run(CompactionModel::start(record, now), table, fuel);
            let (expected, outcome) = compacted(planned(record, now), table);
            after == expected && result == Some(outcome)
        }),
{
    let m = CompactionModel::start(record, now);
    let s0 = m.next(None);
    match planned(record, now) {
        Ok(Some(state)) => {
            let (t1, a1) = answer(table, s0.1->Call_0);
            let s1 = s0.0.next(Some(a1));
            assert(run(m, table, fuel) == proceed(s1, table, (fuel - 1) as nat));
            if existing_state(table, state) is Ok && !is_stale(table, state) {
                assert(s1.1 == StepView::<CompactionOutcome>::Call(compacted_write(state)));
                let (t2, a2) = answer(table, compacted_write(state));
                let s2 = s1.0.next(Some(a2));
                assert(proceed(s1, table, (fuel - 1) as nat) == proceed(
                    s2,
                    t2,
                    (fuel - 2) as nat,
                ));
            }
        },
        _ => {},
    }
}

/// The instant at which a change is compacted decides nothing but the
/// timestamp of a row that has none.
pub proof fn lemma_planned_instants(record: ChangeRecordView, a: Timestamp, b: Timestamp)
    ensures
        match (planned(record, a), planned(record, b)) {
            (Ok(Some(x)), Ok(Some(y))) => x.stream_id == y.stream_id && x.key == y.key
                && x.sequence == y.sequence,
            (Ok(None), Ok(None)) => true,
            (Err(x), Err(y)) => x == y,
            _ => false,
        },
{
}

/// A compaction that cannot read what the table holds for the key writes
/// nothing and ends with the error.
pub proof fn law_compaction_unreadable(
    record: ChangeRecordView,
    now: Timestamp,
    table: Seq<Entry>,
    fuel: nat,
)
    requires
        fuel >= 2,
        planned(record, now) matches Ok(Some(state)) && existing_state(table, state) is Err,
    ensures
        run(CompactionModel::start(record, now), table, fuel) == (
            table,
            Some(
                Err::<CompactionOutcome, ErrorView>(
                    existing_state(table, planned(record, now)->Ok_0->0)->Err_0,
                ),
            ),
        ),
{
    law_compaction_effect(record, now, table, fuel);
}

/// Compaction is idempotent: a change that is compacted a second time, at
/// whatever instant, leaves the table as the first time left it.
pub proof fn law_compaction_idempotent(
    record: ChangeRecordView,
    first: Timestamp,
    second: Timestamp,
    table: Seq<Entry>,
)
    ensures
        table_after(record, second, table_after(record, first, table)) == table_after(
            record,
            first,
            table,
        ),
{
    law_compaction_effect(record, first, table, 2);
    let once = table_after(record, first, table);
    law_compaction_effect(record, second, once, 2);
    lemma_planned_instants(record, first, second);
    match planned(record, first) {
        Ok(Some(state)) => {
            if existing_state(table, state) is Ok && !is_stale(table, state) {
                lemma_lookup_written(
                    table,
                    compacted_pk(state.stream_id),
                    compacted_sk(state.key),
                    RowView::Compacted(state),
                );
            }
        },
        _ => {},
    }
}

/// Replaying one change any number of times leaves the table as one
/// compaction of it does.
pub proof fn law_compaction_replays(
    record: ChangeRecordView,
    nows: Seq<Timestamp>,
    table: Seq<Entry>,
)
    requires
        nows.len() >= 1,
    ensures
        table_after_replays(record, nows, table) == table_after(record, nows[0], table),
    decreases nows.len(),
{
    let once = table_after(record, nows[0], table);
    let rest = nows.drop_first();
    if rest.len() == 0 {
        assert(table_after_replays(record, rest, once) == once);
    } else {
        law_compaction_replays(record, rest, once);
        law_compaction_idempotent(record, nows[0], rest[0], table);
    }
}

/// Compaction is monotone: after a change is compacted, a change of the
/// same key with the same or a lower sequence number is stale and leaves the
/// table as it is, and the compacted state of the key is at the newer
/// sequence number at least. This is so where the key holds compacted state
/// or nothing; where it holds a row of another kind, no change is compacted
/// at all.
pub proof fn law_compaction_monotone(
    newer: ChangeRecordView,
    older: ChangeRecordView,
    first: Timestamp,
    second: Timestamp,
    table: Seq<Entry>,
)
    requires
        planned(newer, first) matches Ok(Some(n)) && planned(older, second) matches Ok(Some(o))
            && n.stream_id == o.stream_id && n.key == o.key && o.sequence <= n.sequence,
        existing_state(table, planned(newer, first)->Ok_0->0) is Ok,
    ensures
        ({
            let state = planned(newer, first)->Ok_0->0;
            let once = table_after(newer, first, table);
            &&& run(CompactionModel::start(older, second), once, 2) == (
                once,
                Some(Ok::<CompactionOutcome, ErrorView>(CompactionOutcome::Stale)),
            )
            &&& lookup(once, compacted_pk(state.stream_id), compacted_sk(state.key)) matches Some(
                RowView::Compacted(kept),
            ) && kept.sequence >= state.sequence
        }),
{
    let state = planned(newer, first)->Ok_0->0;
    law_compaction_effect(newer, first, table, 2);
    let once = table_after(newer, first, table);
    law_compaction_effect(older, second, once, 2);
    if !is_stale(table, state) {
        lemma_lookup_written(
            table,
            compacted_pk(state.stream_id),
            compacted_sk(state.key),
            RowView::Compacted(state),
        );
    }
}

/// The sequence number of compacted state never goes down: whatever change
/// is compacted, a key that held compacted state holds compacted state
/// afterwards, with the same or a higher sequence number.
pub proof fn law_compaction_never_lowers(
    record: ChangeRecordView,
    now: Timestamp,
    table: Seq<Entry>,
    pk: Seq<char>,
    sk: Seq<char>,
)
    requires
        lookup(table, pk, sk) is Some,
        lookup(table, pk, sk)->0 is Compacted,
    ensures
        lookup(table_after(record, now, table), pk, sk) matches Some(RowView::Compacted(kept))
            && kept.sequence >= lookup(table, pk, sk)->0->Compacted_0.sequence,
{
    law_compaction_effect(record, now, table, 2);
    match planned(record, now) {
        Ok(Some(state)) => {
            if existing_state(table, state) is Ok && !is_stale(table, state) {
                let key_pk = compacted_pk(state.stream_id);
                let key_sk = compacted_sk(state.key);
                if pk == key_pk && sk == key_sk {
                    lemma_lookup_written(table, key_pk, key_sk, RowView::Compacted(state));
                } else {
                    lemma_lookup_other(table, key_pk, key_sk, RowView::Compacted(state), pk, sk);
                }
            }
        },
        _ => {},
    }
}

} // verus!
