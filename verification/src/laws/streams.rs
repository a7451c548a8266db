//! Laws of the stream registry.

use crate::errors::ErrorView;
use crate::keys::{
    counter_sk, lemma_fixed_sk_kinds, lemma_partition_pk_injective, meta_sk, partition_pk,
    stream_pk,
};
use crate::models::StreamView;
use crate::registry::{create_refusal, CreateStreamModel, DeleteStreamModel};
use crate::store::{
    lemma_lookup_other, lemma_lookup_without, lemma_lookup_written, lookup, proceed, run,
    with_row, without, Entry, Machine, ReplyView, RowView,
};
use vstd::prelude::*;

verus! {

/// Once the metadata of a stream is written, setting the counters from
/// partition `p` on ends the creation with success, leaves the metadata in
/// place and every counter at zero.
pub proof fn lemma_create_counters(
    m: CreateStreamModel,
    p: u32,
    table: Seq<Entry>,
    fuel: nat,
)
    requires
        p <= m.stream.partition_count,
        fuel >= m.stream.partition_count - p,
        lookup(table, stream_pk(m.stream.stream_id), meta_sk()) == Some(
            RowView::Stream(m.stream),
        ),
        forall|q: u32|
            q < p ==> lookup(table, #[trigger] partition_pk(m.stream.stream_id, q), counter_sk())
                == Some(RowView::Counter(0)),
    ensures
        ({
            let (after, result) = proceed(m.counters_from(p), table, fuel);
            &&& result == Some(Ok::<StreamView, ErrorView>(m.stream))
            &&& lookup(after, stream_pk(m.stream.stream_id), meta_sk()) == Some(
                RowView::Stream(m.stream),
            )
            &&& forall|q: u32|
                q < m.stream.partition_count ==> lookup(
                    after,
                    #[trigger] partition_pk(m.stream.stream_id, q),
                    counter_sk(),
                ) == Some(RowView::Counter(0))
        }),
    decreases m.stream.partition_count - p,
{
    let sid = m.stream.stream_id;
    if p < m.stream.partition_count {
        let state = m.counters_from(p);
        let written = with_row(table, partition_pk(sid, p), counter_sk(), RowView::Counter(0));
        let m2 = state.0;
        assert(m2.next(Some(ReplyView::Done)) == m2.counters_from((p + 1) as u32));
        lemma_fixed_sk_kinds(Seq::empty());
        lemma_lookup_other(
            table,
            partition_pk(sid, p),
            counter_sk(),
            RowView::Counter(0),
            stream_pk(sid),
            meta_sk(),
        );
        assert forall|q: u32| q < p + 1 implies lookup(
            written,
            #[trigger] partition_pk(sid, q),
            counter_sk(),
        ) == Some(RowView::Counter(0)) by {
            if q == p {
                lemma_lookup_written(
                    table,
                    partition_pk(sid, p),
                    counter_sk(),
                    RowView::Counter(0),
                );
            } else {
                if partition_pk(sid, q) == partition_pk(sid, p) {
                    lemma_partition_pk_injective(sid, q, p);
                }
                lemma_lookup_other(
                    table,
                    partition_pk(sid, p),
                    counter_sk(),
                    RowView::Counter(0),
                    partition_pk(sid, q),
                    counter_sk(),
                );
            }
        }
        lemma_create_counters(m2, (p + 1) as u32, written, (fuel - 1) as nat);
        assert(proceed(state, table, fuel) == proceed(
            m2.counters_from((p + 1) as u32),
            written,
            (fuel - 1) as nat,
        ));
    }
}

/// Creating a stream whose id is free succeeds: afterwards the table holds
/// the stream's metadata, and the counter of each of its partitions is zero.
pub proof fn law_create_stream(stream: StreamView, table: Seq<Entry>, fuel: nat)
    requires
        create_refusal(stream.stream_id, stream.partition_count, stream.retention_hours) is None,
        lookup(table, stream_pk(stream.stream_id), meta_sk()) is None,
        fuel > stream.partition_count,
    ensures
        ({
            let (after, result) = run(CreateStreamModel::start(stream), table, fuel);
            &&& result == Some(Ok::<StreamView, ErrorView>(stream))
            &&& lookup(after, stream_pk(stream.stream_id), meta_sk()) == Some(
                RowView::Stream(stream),
            )
            &&& forall|q: u32|
                q < stream.partition_count ==> lookup(
                    after,
                    #[trigger] partition_pk(stream.stream_id, q),
                    counter_sk(),
                ) == Some(RowView::Counter(0))
        }),
{
    let m = CreateStreamModel::start(stream);
    let first = m.next(None);
    let sid = stream.stream_id;
    let written = with_row(table, stream_pk(sid), meta_sk(), RowView::Stream(stream));
    lemma_lookup_written(table, stream_pk(sid), meta_sk(), RowView::Stream(stream));
    let m1 = first.0;
    assert(m1.next(Some(ReplyView::Done)) == m1.counters_from(0));
    lemma_create_counters(m1, 0, written, (fuel - 1) as nat);
    assert(run(m, table, fuel) == proceed(m1.counters_from(0), written, (fuel - 1) as nat));
}

/// Creating a stream whose id is taken fails with `StreamAlreadyExists` and
/// leaves the table as it is.
pub proof fn law_create_existing_stream(stream: StreamView, table: Seq<Entry>, fuel: nat)
    requires
        create_refusal(stream.stream_id, stream.partition_count, stream.retention_hours) is None,
        lookup(table, stream_pk(stream.stream_id), meta_sk()) is Some,
        fuel > 0,
    ensures
        run(CreateStreamModel::start(stream), table, fuel) == (
            table,
            Some(Err::<StreamView, ErrorView>(ErrorView::StreamAlreadyExists(stream.stream_id))),
        ),
{
    let m = CreateStreamModel::start(stream);
    let first = m.next(None);
    let m1 = first.0;
    assert(m1.next(Some(ReplyView::ConditionFailed)) == m1.fail(
        ErrorView::StreamAlreadyExists(stream.stream_id),
    ));
    assert(run(m, table, fuel) == proceed(
        m1.next(Some(ReplyView::ConditionFailed)),
        table,
        (fuel - 1) as nat,
    ));
}

/// Creating a stream twice with the same id: where the first attempt
/// succeeds, the second fails with `StreamAlreadyExists` and changes nothing,
/// whatever shape it asks for.
pub proof fn law_create_stream_twice(
    first: StreamView,
    second: StreamView,
    table: Seq<Entry>,
    fuel: nat,
)
    requires
        first.stream_id == second.stream_id,
        create_refusal(second.stream_id, second.partition_count, second.retention_hours) is None,
        fuel > first.partition_count,
        run(CreateStreamModel::start(first), table, fuel).1 matches Some(Ok(_)),
    ensures
        ({
            let (after, _) = run(CreateStreamModel::start(first), table, fuel);
            &&& lookup(after, stream_pk(first.stream_id), meta_sk()) == Some(
                RowView::Stream(first),
            )
            &&& run(CreateStreamModel::start(second), after, fuel) == (
                after,
                Some(
                    Err::<StreamView, ErrorView>(ErrorView::StreamAlreadyExists(second.stream_id)),
                ),
            )
        }),
{
    let refusal = create_refusal(first.stream_id, first.partition_count, first.retention_hours);
    if refusal is Some {
        let m = CreateStreamModel::start(first);
        assert(m.next(None) == m.fail(refusal->0));
    }
    assert(refusal is None);
    if lookup(table, stream_pk(first.stream_id), meta_sk()) is Some {
        law_create_existing_stream(first, table, fuel);
    }
    assert(lookup(table, stream_pk(first.stream_id), meta_sk()) is None);
    law_create_stream(first, table, fuel);
    let (after, _) = run(CreateStreamModel::start(first), table, fuel);
    law_create_existing_stream(second, after, fuel);
}

/// Whether a key is neither the metadata nor a counter of the stream.
pub open spec fn is_no_stream_key(stream_id: Seq<char>, pk: Seq<char>, sk: Seq<char>) -> bool {
    &&& !(pk == stream_pk(stream_id) && sk == meta_sk())
    &&& sk != counter_sk() || forall|p: u32| pk != #[trigger] partition_pk(stream_id, p)
}

/// Removing the counters from partition `p` on ends the deletion of a
/// stream with success: no counter of the stream is left, and no other row
/// has changed.
pub proof fn lemma_delete_counters(
    m: DeleteStreamModel,
    p: u32,
    before: Seq<Entry>,
    table: Seq<Entry>,
    fuel: nat,
)
    requires
        p <= m.partition_count,
        fuel >= m.partition_count - p,
        forall|q: u32|
            q < p ==> lookup(table, #[trigger] partition_pk(m.stream_id, q), counter_sk()) is None,
        forall|pk: Seq<char>, sk: Seq<char>|
            is_no_stream_key(m.stream_id, pk, sk) ==> #[trigger] lookup(table, pk, sk) == lookup(
                before,
                pk,
                sk,
            ),
    ensures
        ({
            let (after, result) = proceed(m.counters_from(p), table, fuel);
            &&& result == Some(Ok::<(), ErrorView>(()))
            &&& forall|q: u32|
                q < m.partition_count ==> lookup(
                    after,
                    #[trigger] partition_pk(m.stream_id, q),
                    counter_sk(),
                ) is None
            &&& forall|pk: Seq<char>, sk: Seq<char>|
                is_no_stream_key(m.stream_id, pk, sk) ==> #[trigger] lookup(after, pk, sk)
                    == lookup(before, pk, sk)
        }),
    decreases m.partition_count - p,
{
    let sid = m.stream_id;
    if p < m.partition_count {
        let state = m.counters_from(p);
        let removed = without(table, partition_pk(sid, p), counter_sk());
        let m2 = state.0;
        assert(m2.next(Some(ReplyView::Done)) == m2.counters_from((p + 1) as u32));
        assert forall|q: u32| q < p + 1 implies lookup(
            removed,
            #[trigger] partition_pk(sid, q),
            counter_sk(),
        ) is None by {
            lemma_lookup_without(
                table,
                partition_pk(sid, p),
                counter_sk(),
                partition_pk(sid, q),
                counter_sk(),
            );
        }
        assert forall|pk: Seq<char>, sk: Seq<char>| is_no_stream_key(sid, pk, sk) implies
            #[trigger] lookup(removed, pk, sk) == lookup(before, pk, sk) by {
            lemma_lookup_without(table, partition_pk(sid, p), counter_sk(), pk, sk);
        }
        lemma_delete_counters(m2, (p + 1) as u32, before, removed, (fuel - 1) as nat);
        assert(proceed(state, table, fuel) == proceed(
            m2.counters_from((p + 1) as u32),
            removed,
            (fuel - 1) as nat,
        ));
    }
}

/// Deleting a stream that is there succeeds, whatever else the table
/// holds. Afterwards the stream's metadata and the counters of its
/// partitions are gone, and every other row is as it was: events,
/// subscriptions, offsets and compacted state stay behind.
pub proof fn law_delete_stream(
    stream_id: Seq<char>,
    stream: StreamView,
    table: Seq<Entry>,
    fuel: nat,
)
    requires
        lookup(table, stream_pk(stream_id), meta_sk()) == Some(RowView::Stream(stream)),
        fuel >= stream.partition_count + 2,
    ensures
        ({
            let (after, result) = run(DeleteStreamModel::start(stream_id), table, fuel);
            &&& result == Some(Ok::<(), ErrorView>(()))
            &&& lookup(after, stream_pk(stream_id), meta_sk()) is None
            &&& forall|q: u32|
                q < stream.partition_count ==> lookup(
                    after,
                    #[trigger] partition_pk(stream_id, q),
                    counter_sk(),
                ) is None
            &&& forall|pk: Seq<char>, sk: Seq<char>|
                is_no_stream_key(stream_id, pk, sk) ==> #[trigger] lookup(after, pk, sk)
                    == lookup(table, pk, sk)
        }),
{
    let m = DeleteStreamModel::start(stream_id);
    let s0 = m.next(None);
    let s1 = s0.0.next(Some(ReplyView::Item(lookup(table, stream_pk(stream_id), meta_sk()))));
    assert(run(m, table, fuel) == proceed(s1, table, (fuel - 1) as nat));
    let removed = without(table, stream_pk(stream_id), meta_sk());
    let s2 = s1.0.next(Some(ReplyView::Done));
    assert(proceed(s1, table, (fuel - 1) as nat) == proceed(s2, removed, (fuel - 2) as nat));
    assert(s2 == s1.0.counters_from(0));
    assert forall|pk: Seq<char>, sk: Seq<char>| is_no_stream_key(stream_id, pk, sk) implies
        #[trigger] lookup(removed, pk, sk) == lookup(table, pk, sk) by {
        lemma_lookup_without(table, stream_pk(stream_id), meta_sk(), pk, sk);
    }
    lemma_delete_counters(s1.0, 0, table, removed, (fuel - 2) as nat);
    let (after, _) = run(m, table, fuel);
    lemma_fixed_sk_kinds(Seq::empty());
    lemma_lookup_without(table, stream_pk(stream_id), meta_sk(), stream_pk(stream_id), meta_sk());
    // The counters stand under another sort key: removing them leaves the
    // metadata gone.
    assert(lookup(after, stream_pk(stream_id), meta_sk()) is None) by {
        lemma_meta_stays_gone(s1.0, 0, removed, (fuel - 2) as nat);
    }
}

/// Removing counters puts no metadata back.
pub proof fn lemma_meta_stays_gone(m: DeleteStreamModel, p: u32, table: Seq<Entry>, fuel: nat)
    requires
        lookup(table, stream_pk(m.stream_id), meta_sk()) is None,
    ensures
        lookup(proceed(m.counters_from(p), table, fuel).0, stream_pk(m.stream_id), meta_sk())
            is None,
    decreases fuel,
{
    if p < m.partition_count && fuel > 0 {
        let state = m.counters_from(p);
        let removed = without(table, partition_pk(m.stream_id, p), counter_sk());
        lemma_lookup_without(
            table,
            partition_pk(m.stream_id, p),
            counter_sk(),
            stream_pk(m.stream_id),
            meta_sk(),
        );
        let next = state.0.next(Some(ReplyView::Done));
        assert(proceed(state, table, fuel) == proceed(next, removed, (fuel - 1) as nat));
        if p < u32::MAX {
            assert(next == state.0.counters_from((p + 1) as u32));
            lemma_meta_stays_gone(state.0, (p + 1) as u32, removed, (fuel - 1) as nat);
        }
    }
}

} // verus!
