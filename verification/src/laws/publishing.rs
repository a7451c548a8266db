//! Laws of the append path.

use crate::keys::{
    counter_sk, lemma_fixed_sk_kinds, lemma_partition_pk_injective, lemma_sequence_sk_kind,
    meta_sk, partition_pk, sequence_sk, stream_pk,
};
use crate::laws::streams::law_create_stream;
use crate::laws::tables::counter_of;
use crate::models::{PublishedEventView, PublishEventView, StreamView, Timestamp};
use crate::partitioner::partition_of_key;
use crate::publisher::{publish_refusal, PublishModel};
use crate::registry::{create_refusal, CreateStreamModel};
use crate::store::{
    answer, lemma_lookup_other, lemma_lookup_written, lookup, proceed, run, with_row, Entry,
    Machine, ReplyView, RowView,
};
use vstd::prelude::*;

verus! {

/// Whether each reference of `told` names the stream, the key and the
/// partition of the event at its place in the batch.
pub open spec fn told_in_order(m: PublishModel, told: Seq<PublishedEventView>) -> bool {
    forall|j: int|
        0 <= j < told.len() ==> {
            &&& (#[trigger] told[j]).stream_id == m.stream_id
            &&& told[j].key == m.events[j].key
            &&& told[j].partition == m.partition_at(j)
            &&& told[j].timestamp == m.now
        }
}

/// A publish that succeeds tells of every event, in order, with its key
/// and the partition of its key.
pub proof fn lemma_publish_told(m: PublishModel, i: usize, table: Seq<Entry>, fuel: nat)
    requires
        m.partition_count > 0,
        i <= m.events.len() <= usize::MAX,
        m.published.len() == i,
        told_in_order(m, m.published),
    ensures
        ({
            let (_, result) = proceed(m.allocate(i), table, fuel);
            result matches Some(Ok(told)) ==> told.len() == m.events.len() && told_in_order(
                m,
                told,
            )
        }),
    decreases m.events.len() - i,
{
    if i < m.events.len() && fuel > 0 {
        let s0 = m.allocate(i);
        let request = s0.1->Call_0;
        let (t1, a1) = answer(table, request);
        let s1 = s0.0.next(Some(a1));
        assert(proceed(s0, table, fuel) == proceed(s1, t1, (fuel - 1) as nat));
        if s1.1 is Call && fuel > 1 {
            let (t2, a2) = answer(t1, s1.1->Call_0);
            assert(a2 == ReplyView::Done);
            let s2 = s1.0.next(Some(a2));
            assert(proceed(s1, t1, (fuel - 1) as nat) == proceed(s2, t2, (fuel - 2) as nat));
            let partition = m.partition_at(i as int);
            let sequence = s1.0.phase->Writing_2;
            let m3 = PublishModel {
                published: m.published.push(m.published_at(i as int, partition, sequence)),
                ..s1.0
            };
            assert(s2 == m3.allocate((i + 1) as usize));
            assert(told_in_order(m3, m3.published)) by {
                assert forall|j: int| 0 <= j < m3.published.len() implies {
                    &&& (#[trigger] m3.published[j]).stream_id == m3.stream_id
                    &&& m3.published[j].key == m3.events[j].key
                    &&& m3.published[j].partition == m3.partition_at(j)
                    &&& m3.published[j].timestamp == m3.now
                } by {
                    if j < i {
                        assert(m3.published[j] == m.published[j]);
                    }
                }
            }
            lemma_publish_told(m3, (i + 1) as usize, t2, (fuel - 2) as nat);
            let (_, result) = proceed(m3.allocate((i + 1) as usize), t2, (fuel - 2) as nat);
            if result is Some && result->0 is Ok {
                let told = result->0->Ok_0;
                assert forall|j: int| 0 <= j < told.len() implies {
                    &&& (#[trigger] told[j]).stream_id == m.stream_id
                    &&& told[j].key == m.events[j].key
                    &&& told[j].partition == m.partition_at(j)
                    &&& told[j].timestamp == m.now
                } by {
                    assert(told[j].partition == m3.partition_at(j));
                }
            }
        }
    }
}

/// A publish that succeeds tells of every event of the batch, in order,
/// each with its key and with the partition that the key has among the
/// partitions of the stream.
pub proof fn law_publish_partitions(
    stream_id: Seq<char>,
    events: Seq<PublishEventView>,
    now: Timestamp,
    table: Seq<Entry>,
    fuel: nat,
)
    requires
        events.len() <= usize::MAX,
    ensures
        ({
            let (_, result) = run(PublishModel::start(stream_id, events, now), table, fuel);
            result matches Some(Ok(told)) ==> {
                &&& lookup(table, stream_pk(stream_id), meta_sk()) matches Some(
                    RowView::Stream(stream),
                )
                &&& told.len() == events.len()
                &&& forall|j: int|
                    0 <= j < told.len() ==> {
                        &&& (#[trigger] told[j]).key == events[j].key
                        &&& told[j].partition == partition_of_key(
                            events[j].key,
                            stream.partition_count,
                        )
                    }
            }
        }),
{
    let m = PublishModel::start(stream_id, events, now);
    let s0 = m.next(None);
    if s0.1 is Call && fuel > 0 {
        let (t1, a1) = answer(table, s0.1->Call_0);
        assert(t1 == table);
        let s1 = s0.0.next(Some(a1));
        assert(run(m, table, fuel) == proceed(s1, t1, (fuel - 1) as nat));
        let found = lookup(table, stream_pk(stream_id), meta_sk());
        if found is Some && found->0 is Stream {
            let stream = found->0->Stream_0;
            if stream.partition_count > 0 {
                let known = PublishModel { partition_count: stream.partition_count, ..s0.0 };
                assert(s1 == known.allocate(0));
                lemma_publish_told(known, 0, t1, (fuel - 1) as nat);
                let (_, result) = proceed(known.allocate(0), t1, (fuel - 1) as nat);
                if result is Some && result->0 is Ok {
                    let told = result->0->Ok_0;
                    assert forall|j: int| 0 <= j < told.len() implies {
                        &&& (#[trigger] told[j]).key == events[j].key
                        &&& told[j].partition == partition_of_key(
                            events[j].key,
                            stream.partition_count,
                        )
                    } by {
                        assert(told[j].partition == known.partition_at(j));
                    }
                }
            }
        }
    }
}

/// Key affinity: two events with the same key, published to the same
/// stream in one batch or in two, are told to be in the same partition.
pub proof fn law_key_affinity(
    stream_id: Seq<char>,
    stream: StreamView,
    events_a: Seq<PublishEventView>,
    now_a: Timestamp,
    table_a: Seq<Entry>,
    events_b: Seq<PublishEventView>,
    now_b: Timestamp,
    table_b: Seq<Entry>,
    fuel: nat,
    i: int,
    j: int,
)
    requires
        events_a.len() <= usize::MAX,
        events_b.len() <= usize::MAX,
        lookup(table_a, stream_pk(stream_id), meta_sk()) == Some(RowView::Stream(stream)),
        lookup(table_b, stream_pk(stream_id), meta_sk()) == Some(RowView::Stream(stream)),
        run(PublishModel::start(stream_id, events_a, now_a), table_a, fuel).1 matches Some(Ok(_)),
        run(PublishModel::start(stream_id, events_b, now_b), table_b, fuel).1 matches Some(Ok(_)),
        0 <= i < events_a.len(),
        0 <= j < events_b.len(),
        events_a[i].key == events_b[j].key,
    ensures
        ({
            let told_a = run(
                PublishModel::start(stream_id, events_a, now_a),
                table_a,
                fuel,
            ).1->0->Ok_0;
            let told_b = run(
                PublishModel::start(stream_id, events_b, now_b),
                table_b,
                fuel,
            ).1->0->Ok_0;
            told_a[i].partition == told_b[j].partition
        }),
{
    law_publish_partitions(stream_id, events_a, now_a, table_a, fuel);
    law_publish_partitions(stream_id, events_b, now_b, table_b, fuel);
}

/// On a stream of one partition whose counter stands at `first + i`, the
/// events from place `i` on get the sequence numbers that follow, without a
/// gap.
pub proof fn lemma_publish_sequences(
    m: PublishModel,
    i: usize,
    table: Seq<Entry>,
    fuel: nat,
    first: u64,
)
    requires
        m.partition_count == 1,
        i <= m.events.len() <= usize::MAX,
        first + m.events.len() <= u64::MAX,
        fuel >= 2 * (m.events.len() - i),
        m.published.len() == i,
        forall|j: int| 0 <= j < i ==> (#[trigger] m.published[j]).sequence == first + 1 + j,
        lookup(table, partition_pk(m.stream_id, 0), counter_sk()) == Some(
            RowView::Counter((first + i) as u64),
        ),
    ensures
        ({
            let (after, result) = proceed(m.allocate(i), table, fuel);
            &&& result matches Some(Ok(told))
            &&& told.len() == m.events.len()
            &&& forall|j: int|
                0 <= j < told.len() ==> (#[trigger] told[j]).sequence == first + 1 + j
            &&& lookup(after, partition_pk(m.stream_id, 0), counter_sk()) == Some(
                RowView::Counter((first + m.events.len()) as u64),
            )
            &&& lookup(after, stream_pk(m.stream_id), meta_sk()) == lookup(
                table,
                stream_pk(m.stream_id),
                meta_sk(),
            )
        }),
    decreases m.events.len() - i,
{
    if i < m.events.len() {
        let sid = m.stream_id;
        let pk = partition_pk(sid, 0);
        let s0 = m.allocate(i);
        assert(m.partition_at(i as int) == 0);
        let sequence = (first + i + 1) as u64;
        let counted = RowView::Counter(sequence);
        let t1 = with_row(table, pk, counter_sk(), counted);
        assert(answer(table, s0.1->Call_0) == (t1, ReplyView::Item(Some(counted))));
        let s1 = s0.0.next(Some(ReplyView::Item(Some(counted))));
        assert(proceed(s0, table, fuel) == proceed(s1, t1, (fuel - 1) as nat));
        let row = RowView::Event(m.event_at(i as int, 0, sequence));
        let t2 = with_row(t1, pk, sequence_sk(sequence), row);
        assert(answer(t1, s1.1->Call_0) == (t2, ReplyView::Done));
        let s2 = s1.0.next(Some(ReplyView::Done));
        assert(proceed(s1, t1, (fuel - 1) as nat) == proceed(s2, t2, (fuel - 2) as nat));
        let m3 = PublishModel {
            published: m.published.push(m.published_at(i as int, 0, sequence)),
            ..s1.0
        };
        assert(s2 == m3.allocate((i + 1) as usize));
        lemma_sequence_sk_kind(sequence);
        lemma_fixed_sk_kinds(Seq::empty());
        lemma_lookup_written(table, pk, counter_sk(), counted);
        lemma_lookup_other(t1, pk, sequence_sk(sequence), row, pk, counter_sk());
        lemma_lookup_other(table, pk, counter_sk(), counted, stream_pk(sid), meta_sk());
        lemma_lookup_other(t1, pk, sequence_sk(sequence), row, stream_pk(sid), meta_sk());
        assert forall|j: int| 0 <= j < i + 1 implies (#[trigger] m3.published[j]).sequence
            == first + 1 + j by {
            if j < i {
                assert(m3.published[j] == m.published[j]);
            }
        }
        lemma_publish_sequences(m3, (i + 1) as usize, t2, (fuel - 2) as nat, first);
    }
}

/// Contiguous sequences: on a stream of one partition whose counter stands
/// at `first`, a batch of `n` events that is not refused is published with
/// the sequence numbers `first + 1` to `first + n`, in order, all in
/// partition zero. The counter then stands at `first + n` and the stream's
/// metadata is as before, so that the next batch goes on from there.
pub proof fn law_publish_contiguous(
    stream_id: Seq<char>,
    events: Seq<PublishEventView>,
    now: Timestamp,
    table: Seq<Entry>,
    stream: StreamView,
    first: u64,
    fuel: nat,
)
    requires
        publish_refusal(events) is None,
        events.len() <= usize::MAX,
        first + events.len() <= u64::MAX,
        fuel > 2 * events.len(),
        stream.partition_count == 1,
        lookup(table, stream_pk(stream_id), meta_sk()) == Some(RowView::Stream(stream)),
        lookup(table, partition_pk(stream_id, 0), counter_sk()) == Some(RowView::Counter(first)),
    ensures
        ({
            let (after, result) = run(PublishModel::start(stream_id, events, now), table, fuel);
            &&& result matches Some(Ok(told))
            &&& told.len() == events.len()
            &&& forall|j: int|
                0 <= j < told.len() ==> (#[trigger] told[j]).sequence == first + 1 + j
                    && told[j].partition == 0
            &&& lookup(after, partition_pk(stream_id, 0), counter_sk()) == Some(
                RowView::Counter((first + events.len()) as u64),
            )
            &&& lookup(after, stream_pk(stream_id), meta_sk()) == Some(RowView::Stream(stream))
        }),
{
    let m = PublishModel::start(stream_id, events, now);
    let s0 = m.next(None);
    let (t1, a1) = answer(table, s0.1->Call_0);
    let s1 = s0.0.next(Some(a1));
    assert(run(m, table, fuel) == proceed(s1, table, (fuel - 1) as nat));
    let known = PublishModel { partition_count: 1, ..s0.0 };
    assert(s1 == known.allocate(0));
    lemma_publish_sequences(known, 0, table, (fuel - 1) as nat, first);
    law_publish_partitions(stream_id, events, now, table, fuel);
    let (_, result) = run(m, table, fuel);
    let told = result->0->Ok_0;
    assert forall|j: int| 0 <= j < told.len() implies (#[trigger] told[j]).sequence == first + 1
        + j && told[j].partition == 0 by {
        assert(told[j].partition == partition_of_key(events[j].key, 1));
    }
}

/// The partition of the event at place `j` of a batch, on a stream of
/// `partition_count` partitions.
pub open spec fn key_partition(events: Seq<PublishEventView>, partition_count: u32, j: int) -> u32 {
    partition_of_key(events[j].key, partition_count) as u32
}

/// How many of the first `upto` events of a batch fall into a partition.
pub open spec fn events_in_partition(
    events: Seq<PublishEventView>,
    partition_count: u32,
    partition: u32,
    upto: int,
) -> nat
    decreases upto,
{
    if upto <= 0 {
        0
    } else {
        events_in_partition(events, partition_count, partition, upto - 1) + if key_partition(
            events,
            partition_count,
            upto - 1,
        ) == partition {
            1nat
        } else {
            0nat
        }
    }
}

/// A partition holds no more of the first events of a batch than there are.
pub proof fn lemma_events_in_partition_bound(
    events: Seq<PublishEventView>,
    partition_count: u32,
    partition: u32,
    upto: int,
)
    requires
        0 <= upto,
    ensures
        events_in_partition(events, partition_count, partition, upto) <= upto,
    decreases upto,
{
    if upto > 0 {
        lemma_events_in_partition_bound(events, partition_count, partition, upto - 1);
    }
}

/// The sequence number that the event at place `j` of a batch is owed: the
/// counter of its partition before the batch, and one more for itself and
/// for each earlier event of the batch in the same partition.
pub open spec fn owed_sequence(
    before: Seq<Entry>,
    stream_id: Seq<char>,
    events: Seq<PublishEventView>,
    partition_count: u32,
    j: int,
) -> int {
    let partition = key_partition(events, partition_count, j);
    counter_of(before, stream_id, partition) + events_in_partition(
        events,
        partition_count,
        partition,
        j,
    ) + 1
}

/// Whether every partition of the stream has a counter, with room for
/// `more` sequence numbers.
pub open spec fn counters_ready(
    table: Seq<Entry>,
    stream_id: Seq<char>,
    partition_count: u32,
    more: nat,
) -> bool {
    forall|p: u32|
        p < partition_count ==> lookup(table, #[trigger] partition_pk(stream_id, p), counter_sk())
            is Some && lookup(table, partition_pk(stream_id, p), counter_sk())->0 is Counter
            && counter_of(table, stream_id, p) + more <= u64::MAX
}

/// On a stream whose partitions all have counters, the events from place `i`
/// on get, each in its partition, the sequence numbers that follow the
/// partition's counter, without a gap.
pub proof fn lemma_publish_counted(
    m: PublishModel,
    i: usize,
    before: Seq<Entry>,
    table: Seq<Entry>,
    fuel: nat,
)
    requires
        m.partition_count > 0,
        i <= m.events.len() <= usize::MAX,
        fuel >= 2 * (m.events.len() - i),
        m.published.len() == i,
        counters_ready(before, m.stream_id, m.partition_count, m.events.len()),
        forall|p: u32|
            p < m.partition_count ==> lookup(
                table,
                #[trigger] partition_pk(m.stream_id, p),
                counter_sk(),
            ) == Some(
                RowView::Counter(
                    (counter_of(before, m.stream_id, p) + events_in_partition(
                        m.events,
                        m.partition_count,
                        p,
                        i as int,
                    )) as u64,
                ),
            ),
        forall|j: int|
            0 <= j < i ==> (#[trigger] m.published[j]).sequence == owed_sequence(
                before,
                m.stream_id,
                m.events,
                m.partition_count,
                j,
            ),
    ensures
        ({
            let (after, result) = proceed(m.allocate(i), table, fuel);
            &&& result matches Some(Ok(told))
            &&& told.len() == m.events.len()
            &&& forall|j: int|
                0 <= j < told.len() ==> (#[trigger] told[j]).sequence == owed_sequence(
                    before,
                    m.stream_id,
                    m.events,
                    m.partition_count,
                    j,
                )
            &&& forall|p: u32|
                p < m.partition_count ==> counter_of(after, m.stream_id, p) == counter_of(
                    before,
                    m.stream_id,
                    p,
                ) + events_in_partition(m.events, m.partition_count, p, m.events.len() as int)
        }),
    decreases m.events.len() - i,
{
    let sid = m.stream_id;
    let count = m.partition_count;
    if i < m.events.len() {
        let at = key_partition(m.events, count, i as int);
        assert(at == m.partition_at(i as int));
        assert(at < count);
        let pk = partition_pk(sid, at);
        lemma_events_in_partition_bound(m.events, count, at, i as int);
        let sequence = owed_sequence(before, sid, m.events, count, i as int) as u64;
        let s0 = m.allocate(i);
        let counted = RowView::Counter(sequence);
        let t1 = with_row(table, pk, counter_sk(), counted);
        assert(lookup(table, pk, counter_sk()) == Some(RowView::Counter((sequence - 1) as u64)));
        assert(answer(table, s0.1->Call_0) == (t1, ReplyView::Item(Some(counted))));
        let s1 = s0.0.next(Some(ReplyView::Item(Some(counted))));
        assert(proceed(s0, table, fuel) == proceed(s1, t1, (fuel - 1) as nat));
        let row = RowView::Event(m.event_at(i as int, at, sequence));
        let t2 = with_row(t1, pk, sequence_sk(sequence), row);
        assert(answer(t1, s1.1->Call_0) == (t2, ReplyView::Done));
        let s2 = s1.0.next(Some(ReplyView::Done));
        assert(proceed(s1, t1, (fuel - 1) as nat) == proceed(s2, t2, (fuel - 2) as nat));
        let m3 = PublishModel {
            published: m.published.push(m.published_at(i as int, at, sequence)),
            ..s1.0
        };
        assert(s2 == m3.allocate((i + 1) as usize));
        lemma_sequence_sk_kind(sequence);
        assert forall|p: u32| p < count implies lookup(
            t2,
            #[trigger] partition_pk(sid, p),
            counter_sk(),
        ) == Some(
            RowView::Counter(
                (counter_of(before, sid, p) + events_in_partition(m.events, count, p, i + 1))
                    as u64,
            ),
        ) by {
            let other = partition_pk(sid, p);
            lemma_lookup_other(t1, pk, sequence_sk(sequence), row, other, counter_sk());
            if p == at {
                lemma_lookup_written(table, pk, counter_sk(), counted);
            } else {
                if other == pk {
                    lemma_partition_pk_injective(sid, p, at);
                }
                lemma_lookup_other(table, pk, counter_sk(), counted, other, counter_sk());
            }
        }
        assert forall|j: int| 0 <= j < i + 1 implies (#[trigger] m3.published[j]).sequence
            == owed_sequence(before, sid, m.events, count, j) by {
            if j < i {
                assert(m3.published[j] == m.published[j]);
            }
        }
        lemma_publish_counted(m3, (i + 1) as usize, before, t2, (fuel - 2) as nat);
    } else {
        assert forall|p: u32| p < count implies counter_of(table, sid, p) == counter_of(
            before,
            sid,
            p,
        ) + events_in_partition(m.events, count, p, m.events.len() as int) by {
            lemma_events_in_partition_bound(m.events, count, p, i as int);
            assert(lookup(table, partition_pk(sid, p), counter_sk()) is Some);
        }
    }
}

/// Contiguous sequences in every partition: on a stream whose partitions
/// all have counters, each event of a batch that is not refused gets the
/// sequence number that follows, in its partition, the counter and the
/// earlier events of the batch. Every counter then stands higher by the
/// number of events that fell into its partition.
pub proof fn law_publish_counts_per_partition(
    stream_id: Seq<char>,
    events: Seq<PublishEventView>,
    now: Timestamp,
    table: Seq<Entry>,
    stream: StreamView,
    fuel: nat,
)
    requires
        publish_refusal(events) is None,
        events.len() <= usize::MAX,
        fuel > 2 * events.len(),
        stream.partition_count > 0,
        lookup(table, stream_pk(stream_id), meta_sk()) == Some(RowView::Stream(stream)),
        counters_ready(table, stream_id, stream.partition_count, events.len()),
    ensures
        ({
            let (after, result) = run(PublishModel::start(stream_id, events, now), table, fuel);
            &&& result matches Some(Ok(told))
            &&& told.len() == events.len()
            &&& forall|j: int|
                0 <= j < told.len() ==> (#[trigger] told[j]).sequence == owed_sequence(
                    table,
                    stream_id,
                    events,
                    stream.partition_count,
                    j,
                ) && told[j].partition == key_partition(events, stream.partition_count, j)
            &&& forall|p: u32|
                p < stream.partition_count ==> counter_of(after, stream_id, p) == counter_of(
                    table,
                    stream_id,
                    p,
                ) + events_in_partition(events, stream.partition_count, p, events.len() as int)
        }),
{
    let m = PublishModel::start(stream_id, events, now);
    let s0 = m.next(None);
    let (t1, a1) = answer(table, s0.1->Call_0);
    let s1 = s0.0.next(Some(a1));
    assert(run(m, table, fuel) == proceed(s1, table, (fuel - 1) as nat));
    let known = PublishModel { partition_count: stream.partition_count, ..s0.0 };
    assert(s1 == known.allocate(0));
    lemma_publish_counted(known, 0, table, table, (fuel - 1) as nat);
    law_publish_partitions(stream_id, events, now, table, fuel);
}

/// The number of events in some batches.
pub open spec fn total_events(batches: Seq<Seq<PublishEventView>>) -> nat
    decreases batches.len(),
{
    if batches.len() == 0 {
        0
    } else {
        total_events(batches.drop_last()) + batches.last().len()
    }
}

/// The table after some batches were published to a stream, one after the
/// other.
pub open spec fn table_after_batches(
    stream_id: Seq<char>,
    batches: Seq<Seq<PublishEventView>>,
    now: Timestamp,
    table: Seq<Entry>,
    fuel: nat,
) -> Seq<Entry>
    decreases batches.len(),
{
    if batches.len() == 0 {
        table
    } else {
        run(
            PublishModel::start(stream_id, batches.last(), now),
            table_after_batches(stream_id, batches.drop_last(), now, table, fuel),
            fuel,
        ).0
    }
}

/// What the caller was told of the events of some batches that were
/// published to a stream, one after the other: the references of all
/// batches, in order. A batch that failed tells nothing.
pub open spec fn told_of_batches(
    stream_id: Seq<char>,
    batches: Seq<Seq<PublishEventView>>,
    now: Timestamp,
    table: Seq<Entry>,
    fuel: nat,
) -> Seq<PublishedEventView>
    decreases batches.len(),
{
    if batches.len() == 0 {
        Seq::empty()
    } else {
        let before = told_of_batches(stream_id, batches.drop_last(), now, table, fuel);
        match run(
            PublishModel::start(stream_id, batches.last(), now),
            table_after_batches(stream_id, batches.drop_last(), now, table, fuel),
            fuel,
        ).1 {
            Some(Ok(told)) => before + told,
            _ => before,
        }
    }
}

/// Contiguous sequences over any number of publishes: on a stream of one
/// partition whose counter stands at `first`, batches that are published one
/// after the other get, taken together and in order, the sequence numbers
/// `first + 1`, `first + 2` and so on, without a gap.
pub proof fn law_publishes_contiguous(
    stream_id: Seq<char>,
    batches: Seq<Seq<PublishEventView>>,
    now: Timestamp,
    table: Seq<Entry>,
    stream: StreamView,
    first: u64,
    fuel: nat,
)
    requires
        forall|b: int|
            0 <= b < batches.len() ==> publish_refusal(#[trigger] batches[b]) is None
                && batches[b].len() <= usize::MAX,
        first + total_events(batches) <= u64::MAX,
        fuel > 2 * total_events(batches),
        stream.partition_count == 1,
        lookup(table, stream_pk(stream_id), meta_sk()) == Some(RowView::Stream(stream)),
        lookup(table, partition_pk(stream_id, 0), counter_sk()) == Some(RowView::Counter(first)),
    ensures
        ({
            let after = table_after_batches(stream_id, batches, now, table, fuel);
            let told = told_of_batches(stream_id, batches, now, table, fuel);
            &&& told.len() == total_events(batches)
            &&& forall|j: int|
                0 <= j < told.len() ==> (#[trigger] told[j]).sequence == first + 1 + j
            &&& lookup(after, partition_pk(stream_id, 0), counter_sk()) == Some(
                RowView::Counter((first + total_events(batches)) as u64),
            )
            &&& lookup(after, stream_pk(stream_id), meta_sk()) == Some(RowView::Stream(stream))
        }),
    decreases batches.len(),
{
    if batches.len() > 0 {
        let earlier = batches.drop_last();
        assert forall|b: int| 0 <= b < earlier.len() implies publish_refusal(
            #[trigger] earlier[b],
        ) is None && earlier[b].len() <= usize::MAX by {
            assert(earlier[b] == batches[b]);
        }
        law_publishes_contiguous(stream_id, earlier, now, table, stream, first, fuel);
        let before = table_after_batches(stream_id, earlier, now, table, fuel);
        let told_before = told_of_batches(stream_id, earlier, now, table, fuel);
        let reached = (first + total_events(earlier)) as u64;
        law_publish_contiguous(stream_id, batches.last(), now, before, stream, reached, fuel);
        let last = PublishModel::start(stream_id, batches.last(), now);
        let told_last = run(last, before, fuel).1->0->Ok_0;
        let told = told_of_batches(stream_id, batches, now, table, fuel);
        assert(told == told_before + told_last);
        assert forall|j: int| 0 <= j < told.len() implies (#[trigger] told[j]).sequence == first
            + 1 + j by {
            if j < told_before.len() {
                assert(told[j] == told_before[j]);
            } else {
                assert(told[j] == told_last[j - told_before.len()]);
            }
        }
    }
}

/// On a stream of one partition that was just created, the first batch of
/// `n` events is published with the sequence numbers 1 to `n`.
pub proof fn law_first_publish_starts_at_one(
    stream: StreamView,
    events: Seq<PublishEventView>,
    now: Timestamp,
    table: Seq<Entry>,
    fuel: nat,
)
    requires
        create_refusal(stream.stream_id, stream.partition_count, stream.retention_hours) is None,
        stream.partition_count == 1,
        lookup(table, stream_pk(stream.stream_id), meta_sk()) is None,
        publish_refusal(events) is None,
        events.len() <= usize::MAX,
        events.len() <= u64::MAX,
        fuel > 2 * events.len(),
        fuel > 1,
    ensures
        ({
            let (created, _) = run(CreateStreamModel::start(stream), table, fuel);
            let (_, result) = run(
                PublishModel::start(stream.stream_id, events, now),
                created,
                fuel,
            );
            &&& result matches Some(Ok(told))
            &&& told.len() == events.len()
            &&& forall|j: int| 0 <= j < told.len() ==> (#[trigger] told[j]).sequence == 1 + j
        }),
{
    law_create_stream(stream, table, fuel);
    let (created, _) = run(CreateStreamModel::start(stream), table, fuel);
    assert(lookup(created, partition_pk(stream.stream_id, 0), counter_sk()) == Some(
        RowView::Counter(0),
    ));
    law_publish_contiguous(stream.stream_id, events, now, created, stream, 0, fuel);
}

} // verus!
