//! Laws of the poll and commit path.

use crate::errors::ErrorView;
use crate::keys::{
    lemma_offset_sk_injective, lemma_partition_pk_tells, lemma_sequence_sk_order, meta_sk,
    offset_sk, offsets_pk, partition_pk, sequence_sk, stream_pk, subscription_sk,
};
use crate::laws::tables::{
    distinct_keys, entry_keyed, events_keyed, held_at, holds_event, keys_after,
    lemma_proceed_reads_only, lemma_rows_after_complete, lemma_rows_after_sorted,
    lemma_with_row_keeps_events_keyed, reads_only,
};
use crate::text::lex_less;
use crate::models::{EventView, PartitionOffset, StreamView, Timestamp};
use crate::poll::{
    advance, committed_offset, lemma_sort_by_time, offset_read, partition_read,
    per_partition_limit, poll_outcome, polled, reads, sort_by_time, PollModel, PollPhase,
};
use crate::replies::events_among;
use crate::store::{
    answer, lemma_lookup_other, lemma_lookup_written, lemma_more_fuel, lookup, proceed,
    rows_after, run, with_row, Entry, Machine, ReplyView, RowView,
};
use crate::subscriptions::{commit_refusal, partitions_in_range, CommitOffsetsModel};
use vstd::prelude::*;

verus! {

/// Whether an event belongs to the stream and lies after the offset that
/// the subscription has committed in the event's partition.
pub open spec fn after_offset(
    table: Seq<Entry>,
    stream_id: Seq<char>,
    subscription_id: Seq<char>,
    event: EventView,
) -> bool {
    event.stream_id == stream_id && event.sequence > committed_offset(
        table,
        stream_id,
        subscription_id,
        event.partition,
    )
}

/// The offset that a cursor carries for a partition: that of its last
/// entry for the partition, if it has one.
pub open spec fn last_offset_for(offsets: Seq<PartitionOffset>, partition: u32) -> Option<u64>
    decreases offsets.len(),
{
    if offsets.len() == 0 {
        None
    } else if offsets.last().partition == partition {
        Some(offsets.last().offset)
    } else {
        last_offset_for(offsets.drop_last(), partition)
    }
}

/// The committed offset of a partition once a cursor's offsets are written
/// over those of `table`.
pub open spec fn committed_over(
    table: Seq<Entry>,
    stream_id: Seq<char>,
    subscription_id: Seq<char>,
    offsets: Seq<PartitionOffset>,
    partition: u32,
) -> u64 {
    match last_offset_for(offsets, partition) {
        Some(offset) => offset,
        None => committed_offset(table, stream_id, subscription_id, partition),
    }
}

/// Once a poll has failed to read a partition, it reads no further.
pub proof fn lemma_reads_error(
    table: Seq<Entry>,
    stream_id: Seq<char>,
    subscription_id: Seq<char>,
    partition_count: u32,
    limit: u32,
    at: u32,
    upto: u32,
)
    requires
        at <= upto,
        reads(table, stream_id, subscription_id, partition_count, limit, at) is Err,
    ensures
        reads(table, stream_id, subscription_id, partition_count, limit, upto) == reads(
            table,
            stream_id,
            subscription_id,
            partition_count,
            limit,
            at,
        ),
    decreases upto - at,
{
    if at < upto {
        lemma_reads_error(
            table,
            stream_id,
            subscription_id,
            partition_count,
            limit,
            at,
            (upto - 1) as u32,
        );
    }
}

/// A poll that has read the partitions below `p` goes on to read the others
/// and ends with what it has read from all of them.
pub proof fn lemma_poll_reads(m: PollModel, p: u32, table: Seq<Entry>, fuel: nat)
    requires
        p <= m.partition_count,
        fuel >= 2 * (m.partition_count - p),
        reads(table, m.stream_id, m.subscription_id, m.partition_count, m.limit, p) == Ok::<
            (Seq<PartitionOffset>, Seq<EventView>),
            ErrorView,
        >((m.offsets, m.events)),
    ensures
        proceed(m.partition(p), table, fuel) == (
            table,
            Some(
                poll_outcome(
                    m.limit,
                    reads(
                        table,
                        m.stream_id,
                        m.subscription_id,
                        m.partition_count,
                        m.limit,
                        m.partition_count,
                    ),
                ),
            ),
        ),
    decreases m.partition_count - p,
{
    if p < m.partition_count {
        let s0 = m.partition(p);
        let (t1, a1) = answer(table, s0.1->Call_0);
        let s1 = s0.0.next(Some(a1));
        assert(proceed(s0, table, fuel) == proceed(s1, table, (fuel - 1) as nat));
        if offset_read(table, m.stream_id, m.subscription_id, p) is Err {
            lemma_reads_error(
                table,
                m.stream_id,
                m.subscription_id,
                m.partition_count,
                m.limit,
                (p + 1) as u32,
                m.partition_count,
            );
            return ;
        }
        let offset = committed_offset(table, m.stream_id, m.subscription_id, p);
        assert(s1.0.phase == PollPhase::Events(p, offset));
        let (t2, a2) = answer(table, s1.1->Call_0);
        let s2 = s1.0.next(Some(a2));
        assert(proceed(s1, table, (fuel - 1) as nat) == proceed(s2, table, (fuel - 2) as nat));
        let found = partition_read(
            table,
            m.stream_id,
            m.subscription_id,
            m.partition_count,
            m.limit,
            p,
        );
        let m2 = PollModel {
            offsets: m.offsets.push(
                PartitionOffset { partition: p, offset: advance(found, offset) },
            ),
            events: m.events + found,
            ..s1.0
        };
        assert(s2 == m2.partition((p + 1) as u32));
        lemma_poll_reads(m2, (p + 1) as u32, table, (fuel - 2) as nat);
    }
}

/// What a poll returns: run against a table that does not fail, a poll
/// leaves the table as it is and returns what `polled` says.
pub proof fn law_poll_effect(
    stream_id: Seq<char>,
    subscription_id: Seq<char>,
    limit: u32,
    table: Seq<Entry>,
    fuel: nat,
)
    requires
        fuel >= 2 * u32::MAX + 2,
    ensures
        run(PollModel::start(stream_id, subscription_id, limit), table, fuel) == (
            table,
            Some(polled(table, stream_id, subscription_id, limit)),
        ),
{
    let m = PollModel::start(stream_id, subscription_id, limit);
    let s0 = m.next(None);
    let (t1, a1) = answer(table, s0.1->Call_0);
    let s1 = s0.0.next(Some(a1));
    assert(run(m, table, fuel) == proceed(s1, table, (fuel - 1) as nat));
    if s1.1 is Call {
        let (t2, a2) = answer(table, s1.1->Call_0);
        let s2 = s1.0.next(Some(a2));
        assert(proceed(s1, table, (fuel - 1) as nat) == proceed(s2, table, (fuel - 2) as nat));
        if s2.1 is Call {
            assert(s2 == s1.0.partition(0));
            lemma_poll_reads(s1.0, 0, table, (fuel - 2) as nat);
        }
    }
}

/// Committing the offsets from place `i` on writes each of them, so that
/// every partition ends with the last offset that the cursor carries for it.
pub proof fn lemma_commit_writes(
    m: CommitOffsetsModel,
    i: usize,
    before: Seq<Entry>,
    table: Seq<Entry>,
    fuel: nat,
)
    requires
        i <= m.offsets.len() <= usize::MAX,
        fuel >= m.offsets.len() - i,
        events_keyed(table),
        forall|p: u32|
            #[trigger] committed_offset(table, m.stream_id, m.subscription_id, p)
                == committed_over(
                before,
                m.stream_id,
                m.subscription_id,
                m.offsets.take(i as int),
                p,
            ),
    ensures
        ({
            let (after, result) = proceed(m.write(i), table, fuel);
            &&& result == Some(Ok::<(), ErrorView>(()))
            &&& events_keyed(after)
            &&& forall|p: u32|
                #[trigger] committed_offset(after, m.stream_id, m.subscription_id, p)
                    == committed_over(before, m.stream_id, m.subscription_id, m.offsets, p)
        }),
    decreases m.offsets.len() - i,
{
    let sid = m.stream_id;
    let sub = m.subscription_id;
    if i < m.offsets.len() {
        let entry = m.offsets[i as int];
        let s0 = m.write(i);
        let pk = offsets_pk(sid, sub);
        let row = RowView::Offset { offset: entry.offset, committed_at: m.now };
        let written = with_row(table, pk, offset_sk(entry.partition), row);
        assert(answer(table, s0.1->Call_0) == (written, ReplyView::Done));
        let s1 = s0.0.next(Some(ReplyView::Done));
        assert(proceed(s0, table, fuel) == proceed(s1, written, (fuel - 1) as nat));
        assert(s1 == s0.0.write((i + 1) as usize));
        lemma_with_row_keeps_events_keyed(table, pk, offset_sk(entry.partition), row);
        let upto = m.offsets.take(i + 1);
        assert(upto.drop_last() =~= m.offsets.take(i as int));
        assert(upto.last() == entry);
        assert forall|p: u32| #[trigger] committed_offset(written, sid, sub, p) == committed_over(
            before,
            sid,
            sub,
            upto,
            p,
        ) by {
            if p == entry.partition {
                lemma_lookup_written(table, pk, offset_sk(entry.partition), row);
            } else {
                if offset_sk(p) == offset_sk(entry.partition) {
                    lemma_offset_sk_injective(p, entry.partition);
                }
                lemma_lookup_other(table, pk, offset_sk(entry.partition), row, pk, offset_sk(p));
                assert(committed_offset(written, sid, sub, p) == committed_offset(
                    table,
                    sid,
                    sub,
                    p,
                ));
            }
        }
        lemma_commit_writes(s0.0, (i + 1) as usize, before, written, (fuel - 1) as nat);
    } else {
        assert(m.offsets.take(i as int) =~= m.offsets);
    }
}

/// A commit for a subscription that is registered on a stream that is
/// there, with a cursor that names partitions of the stream only, succeeds
/// on a table that does not fail. Afterwards every partition that the cursor
/// names has the last offset that the cursor carries for it, and every other
/// partition has the offset it had.
pub proof fn law_commit_offsets(
    stream_id: Seq<char>,
    subscription_id: Seq<char>,
    offsets: Seq<PartitionOffset>,
    now: Timestamp,
    table: Seq<Entry>,
    fuel: nat,
)
    requires
        events_keyed(table),
        commit_refusal(table, stream_id, subscription_id, offsets) is None,
        offsets.len() <= usize::MAX,
        fuel >= offsets.len() + 2,
    ensures
        ({
            let (after, result) = run(
                CommitOffsetsModel::start(stream_id, subscription_id, offsets, now),
                table,
                fuel,
            );
            &&& result == Some(Ok::<(), ErrorView>(()))
            &&& events_keyed(after)
            &&& forall|p: u32|
                #[trigger] committed_offset(after, stream_id, subscription_id, p)
                    == committed_over(table, stream_id, subscription_id, offsets, p)
        }),
{
    let m = CommitOffsetsModel::start(stream_id, subscription_id, offsets, now);
    let s0 = m.next(None);
    let (t1, a1) = answer(table, s0.1->Call_0);
    let s1 = s0.0.next(Some(a1));
    assert(run(m, table, fuel) == proceed(s1, table, (fuel - 1) as nat));
    let (t2, a2) = answer(table, s1.1->Call_0);
    let s2 = s1.0.next(Some(a2));
    assert(proceed(s1, table, (fuel - 1) as nat) == proceed(s2, table, (fuel - 2) as nat));
    assert(s2 == s1.0.write(0));
    assert(offsets.take(0) =~= Seq::<PartitionOffset>::empty());
    lemma_commit_writes(s1.0, 0, table, table, (fuel - 2) as nat);
}

/// A commit for a stream or a subscription that is not there, or with a
/// cursor that names a partition the stream does not have, ends with that
/// error and writes nothing: `StreamNotFound`, `SubscriptionNotFound` or
/// `InvalidCursor`.
pub proof fn law_commit_refused(
    stream_id: Seq<char>,
    subscription_id: Seq<char>,
    offsets: Seq<PartitionOffset>,
    now: Timestamp,
    table: Seq<Entry>,
    fuel: nat,
)
    requires
        commit_refusal(table, stream_id, subscription_id, offsets) is Some,
        fuel >= 2,
    ensures
        run(CommitOffsetsModel::start(stream_id, subscription_id, offsets, now), table, fuel) == (
            table,
            Some(
                Err::<(), ErrorView>(
                    commit_refusal(table, stream_id, subscription_id, offsets)->0,
                ),
            ),
        ),
        lookup(table, stream_pk(stream_id), meta_sk()) is None ==> commit_refusal(
            table,
            stream_id,
            subscription_id,
            offsets,
        ) == Some(ErrorView::StreamNotFound(stream_id)),
        lookup(table, stream_pk(stream_id), meta_sk()) is Some && lookup(
            table,
            stream_pk(stream_id),
            meta_sk(),
        )->0 is Stream && lookup(table, stream_pk(stream_id), subscription_sk(subscription_id))
            is None ==> commit_refusal(table, stream_id, subscription_id, offsets) == Some(
            ErrorView::SubscriptionNotFound(subscription_id),
        ),
{
    let m = CommitOffsetsModel::start(stream_id, subscription_id, offsets, now);
    let s0 = m.next(None);
    let (t1, a1) = answer(table, s0.1->Call_0);
    let s1 = s0.0.next(Some(a1));
    assert(run(m, table, fuel) == proceed(s1, table, (fuel - 1) as nat));
    if s1.1 is Call {
        let (t2, a2) = answer(table, s1.1->Call_0);
        let s2 = s1.0.next(Some(a2));
        assert(proceed(s1, table, (fuel - 1) as nat) == proceed(s2, table, (fuel - 2) as nat));
    }
}

/// A poll changes nothing in the table, and every event that it returns
/// belongs to the stream and has a sequence number above the offset that the
/// subscription has committed in the event's partition.
pub proof fn law_poll_reads_after_offsets(
    stream_id: Seq<char>,
    subscription_id: Seq<char>,
    limit: u32,
    table: Seq<Entry>,
    fuel: nat,
)
    requires
        events_keyed(table),
    ensures
        ({
            let (after, result) = run(
                PollModel::start(stream_id, subscription_id, limit),
                table,
                fuel,
            );
            &&& after == table
            &&& result matches Some(Ok(response)) ==> forall|k: int|
                0 <= k < response.events.len() ==> after_offset(
                    table,
                    stream_id,
                    subscription_id,
                    #[trigger] response.events[k],
                )
        }),
{
    let m = PollModel::start(stream_id, subscription_id, limit);
    assert(reads_only::<PollModel>());
    lemma_proceed_reads_only(m.next(None), table, fuel);
    let (_, result) = run(m, table, fuel);
    if result is Some && result->0 is Ok {
        let response = result->0->Ok_0;
        let enough = (2 * u32::MAX + 2 + fuel) as nat;
        lemma_more_fuel(m.next(None), table, fuel, enough);
        law_poll_effect(stream_id, subscription_id, limit, table, enough);
        let found = lookup(table, stream_pk(stream_id), meta_sk());
        let count = found->0->Stream_0.partition_count;
        let asked = if limit == 0 {
            1u32
        } else {
            limit
        };
        let read = reads(table, stream_id, subscription_id, count, asked, count);
        lemma_outcome_events(asked, read);
        lemma_reads(table, stream_id, subscription_id, count, asked, count);
        let events = read->Ok_0.1;
        assert forall|k: int| 0 <= k < response.events.len() implies after_offset(
            table,
            stream_id,
            subscription_id,
            #[trigger] response.events[k],
        ) by {
            assert(events.contains(response.events[k]));
            let j = choose|j: int| 0 <= j < events.len() && events[j] == response.events[k];
            assert(events[j].stream_id == stream_id);
        }
    }
}

/// Commit, then poll: a poll that follows the commit of a cursor returns no
/// event whose sequence number is at or below the offset that the cursor
/// carries for the event's partition.
pub proof fn law_poll_after_commit(
    stream_id: Seq<char>,
    subscription_id: Seq<char>,
    offsets: Seq<PartitionOffset>,
    now: Timestamp,
    limit: u32,
    table: Seq<Entry>,
    commit_fuel: nat,
    poll_fuel: nat,
)
    requires
        events_keyed(table),
        commit_refusal(table, stream_id, subscription_id, offsets) is None,
        offsets.len() <= usize::MAX,
        commit_fuel >= offsets.len() + 2,
    ensures
        ({
            let (committed, done) = run(
                CommitOffsetsModel::start(stream_id, subscription_id, offsets, now),
                table,
                commit_fuel,
            );
            let (after, result) = run(
                PollModel::start(stream_id, subscription_id, limit),
                committed,
                poll_fuel,
            );
            &&& done == Some(Ok::<(), ErrorView>(()))
            &&& after == committed
            &&& result matches Some(Ok(response)) ==> forall|k: int|
                0 <= k < response.events.len() ==> (last_offset_for(
                    offsets,
                    (#[trigger] response.events[k]).partition,
                ) matches Some(offset) ==> response.events[k].sequence > offset)
        }),
{
    law_commit_offsets(stream_id, subscription_id, offsets, now, table, commit_fuel);
    let (committed, _) = run(
        CommitOffsetsModel::start(stream_id, subscription_id, offsets, now),
        table,
        commit_fuel,
    );
    law_poll_reads_after_offsets(stream_id, subscription_id, limit, committed, poll_fuel);
    let poll = PollModel::start(stream_id, subscription_id, limit);
    let (_, result) = run(poll, committed, poll_fuel);
    if result is Some && result->0 is Ok {
        let response = result->0->Ok_0;
        assert forall|k: int| 0 <= k < response.events.len() implies (last_offset_for(
            offsets,
            (#[trigger] response.events[k]).partition,
        ) matches Some(offset) ==> response.events[k].sequence > offset) by {
            let event = response.events[k];
            assert(after_offset(committed, stream_id, subscription_id, event));
            assert(committed_offset(committed, stream_id, subscription_id, event.partition)
                == committed_over(table, stream_id, subscription_id, offsets, event.partition));
        }
    }
}

/// Rows that the table holds under rising sort keys of one partition, all
/// after the sort key of an offset: the events among them belong to that
/// partition of the stream, lie after the offset, and rise in sequence
/// number.
pub proof fn lemma_keyed_events(
    table: Seq<Entry>,
    stream_id: Seq<char>,
    partition: u32,
    offset: u64,
    rows: Seq<RowView>,
    keys: Seq<Seq<char>>,
)
    requires
        events_keyed(table),
        rows.len() == keys.len(),
        forall|k: int|
            0 <= k < rows.len() ==> held_at(
                table,
                partition_pk(stream_id, partition),
                #[trigger] keys[k],
                rows[k],
            ) && lex_less(sequence_sk(offset), keys[k]),
        forall|j: int, k: int|
            0 <= j < k < keys.len() ==> lex_less(#[trigger] keys[j], #[trigger] keys[k]),
    ensures
        forall|k: int|
            0 <= k < events_among(rows).len() ==> {
                &&& (#[trigger] events_among(rows)[k]).stream_id == stream_id
                &&& events_among(rows)[k].partition == partition
                &&& events_among(rows)[k].sequence > offset
                &&& holds_event(table, events_among(rows)[k])
                &&& exists|j: int|
                    0 <= j < rows.len() && #[trigger] keys[j] == sequence_sk(
                        events_among(rows)[k].sequence,
                    )
            },
        forall|j: int, k: int|
            0 <= j < k < events_among(rows).len() ==> (#[trigger] events_among(rows)[j]).sequence
                < (#[trigger] events_among(rows)[k]).sequence,
    decreases rows.len(),
{
    if rows.len() > 0 {
        let front = rows.drop_last();
        let front_keys = keys.drop_last();
        assert forall|k: int| 0 <= k < front.len() implies held_at(
            table,
            partition_pk(stream_id, partition),
            #[trigger] front_keys[k],
            front[k],
        ) && lex_less(sequence_sk(offset), front_keys[k]) by {
            assert(front_keys[k] == keys[k] && front[k] == rows[k]);
        }
        assert forall|j: int, k: int| 0 <= j < k < front_keys.len() implies lex_less(
            #[trigger] front_keys[j],
            #[trigger] front_keys[k],
        ) by {
            assert(front_keys[j] == keys[j] && front_keys[k] == keys[k]);
        }
        lemma_keyed_events(table, stream_id, partition, offset, front, front_keys);
        let before = events_among(front);
        let found = events_among(rows);
        let n = rows.len() - 1;
        match rows.last() {
            RowView::Event(event) => {
                assert(found == before.push(event));
                assert(held_at(table, partition_pk(stream_id, partition), keys[n], rows[n]));
                let i = choose|i: int|
                    0 <= i < table.len() && #[trigger] table[i] == (Entry {
                        pk: partition_pk(stream_id, partition),
                        sk: keys[n],
                        row: rows[n],
                    });
                assert(entry_keyed(table[i]));
                lemma_partition_pk_tells(event.stream_id, event.partition, stream_id, partition);
                lemma_sequence_sk_order(offset, event.sequence);
                assert forall|k: int| 0 <= k < found.len() implies {
                    &&& (#[trigger] found[k]).stream_id == stream_id
                    &&& found[k].partition == partition
                    &&& found[k].sequence > offset
                    &&& holds_event(table, found[k])
                    &&& exists|j: int|
                        0 <= j < rows.len() && #[trigger] keys[j] == sequence_sk(found[k].sequence)
                } by {
                    if k < before.len() {
                        assert(found[k] == before[k]);
                        let j = choose|j: int|
                            0 <= j < front.len() && #[trigger] front_keys[j] == sequence_sk(
                                before[k].sequence,
                            );
                        assert(keys[j] == front_keys[j]);
                    } else {
                        assert(keys[n] == sequence_sk(found[k].sequence));
                        assert(table[i].row == RowView::Event(found[k]));
                    }
                }
                assert forall|j: int, k: int| 0 <= j < k < found.len() implies (
                #[trigger] found[j]).sequence < (#[trigger] found[k]).sequence by {
                    if k < before.len() {
                        assert(found[j] == before[j] && found[k] == before[k]);
                    } else {
                        assert(found[j] == before[j]);
                        let at = choose|at: int|
                            0 <= at < front.len() && #[trigger] front_keys[at] == sequence_sk(
                                before[j].sequence,
                            );
                        assert(keys[at] == front_keys[at]);
                        assert(lex_less(keys[at], keys[n]));
                        lemma_sequence_sk_order(before[j].sequence, event.sequence);
                    }
                }
            },
            _ => {
                assert(found == before);
                assert forall|k: int| 0 <= k < found.len() implies {
                    &&& (#[trigger] found[k]).stream_id == stream_id
                    &&& found[k].partition == partition
                    &&& found[k].sequence > offset
                    &&& holds_event(table, found[k])
                    &&& exists|j: int|
                        0 <= j < rows.len() && #[trigger] keys[j] == sequence_sk(found[k].sequence)
                } by {
                    let j = choose|j: int|
                        0 <= j < front.len() && #[trigger] front_keys[j] == sequence_sk(
                            before[k].sequence,
                        );
                    assert(keys[j] == front_keys[j]);
                }
            },
        }
    }
}

/// What a poll reads from one partition belongs to that partition of the
/// stream and rises in sequence number, from above the committed offset up
/// to the sequence number that the cursor takes for the partition.
pub proof fn lemma_partition_read(
    table: Seq<Entry>,
    stream_id: Seq<char>,
    subscription_id: Seq<char>,
    partition_count: u32,
    limit: u32,
    partition: u32,
)
    requires
        events_keyed(table),
    ensures
        ({
            let found = partition_read(
                table,
                stream_id,
                subscription_id,
                partition_count,
                limit,
                partition,
            );
            let offset = committed_offset(table, stream_id, subscription_id, partition);
            &&& advance(found, offset) >= offset
            &&& forall|k: int|
                0 <= k < found.len() ==> {
                    &&& (#[trigger] found[k]).stream_id == stream_id
                    &&& found[k].partition == partition
                    &&& offset < found[k].sequence <= advance(found, offset)
                    &&& holds_event(table, found[k])
                }
        }),
{
    let offset = committed_offset(table, stream_id, subscription_id, partition);
    let pk = partition_pk(stream_id, partition);
    let each = per_partition_limit(limit, partition_count) as nat;
    let rows = rows_after(table, pk, sequence_sk(offset), each);
    let keys = keys_after(table, pk, sequence_sk(offset), each);
    lemma_rows_after_sorted(table, pk, sequence_sk(offset), each);
    lemma_keyed_events(table, stream_id, partition, offset, rows, keys);
    let found = events_among(rows);
    assert forall|k: int| 0 <= k < found.len() implies (#[trigger] found[k]).sequence
        <= advance(found, offset) by {
        if k < found.len() - 1 {
            assert(found[k].sequence < found[found.len() - 1].sequence);
        }
    }
}

/// An event that is one of some rows is one of the events among them.
pub proof fn lemma_event_among(rows: Seq<RowView>, k: int, event: EventView)
    requires
        0 <= k < rows.len(),
        rows[k] == RowView::Event(event),
    ensures
        events_among(rows).contains(event),
    decreases rows.len(),
{
    let front = rows.drop_last();
    let found = events_among(rows);
    if k < rows.len() - 1 {
        assert(front[k] == rows[k]);
        lemma_event_among(front, k, event);
        let at = choose|at: int|
            0 <= at < events_among(front).len() && events_among(front)[at] == event;
        assert(found[at] == event);
    } else {
        assert(found == events_among(front).push(event));
        assert(found[found.len() - 1] == event);
    }
}

/// A poll leaves out no event of a partition. Where no two rows stand under
/// the same keys, an event of the partition that lies after the committed
/// offset is among the events read, unless the query found as many rows as
/// each partition's share of the limit allows and the event lies beyond all
/// that were read.
pub proof fn law_poll_leaves_nothing_out(
    table: Seq<Entry>,
    stream_id: Seq<char>,
    subscription_id: Seq<char>,
    partition_count: u32,
    limit: u32,
    event: EventView,
)
    requires
        events_keyed(table),
        distinct_keys(table),
        holds_event(table, event),
        event.stream_id == stream_id,
        event.sequence > committed_offset(table, stream_id, subscription_id, event.partition),
    ensures
        ({
            let found = partition_read(
                table,
                stream_id,
                subscription_id,
                partition_count,
                limit,
                event.partition,
            );
            let rows = rows_after(
                table,
                partition_pk(stream_id, event.partition),
                sequence_sk(
                    committed_offset(table, stream_id, subscription_id, event.partition),
                ),
                per_partition_limit(limit, partition_count) as nat,
            );
            ||| found.contains(event)
            ||| rows.len() == per_partition_limit(limit, partition_count) && forall|k: int|
                0 <= k < found.len() ==> (#[trigger] found[k]).sequence < event.sequence
        }),
{
    let partition = event.partition;
    let offset = committed_offset(table, stream_id, subscription_id, partition);
    let pk = partition_pk(stream_id, partition);
    let each = per_partition_limit(limit, partition_count) as nat;
    let rows = rows_after(table, pk, sequence_sk(offset), each);
    let keys = keys_after(table, pk, sequence_sk(offset), each);
    let found = events_among(rows);
    let i = choose|i: int|
        0 <= i < table.len() && (#[trigger] table[i]).row == RowView::Event(event);
    assert(entry_keyed(table[i]));
    lemma_sequence_sk_order(offset, event.sequence);
    lemma_rows_after_sorted(table, pk, sequence_sk(offset), each);
    lemma_keyed_events(table, stream_id, partition, offset, rows, keys);
    lemma_rows_after_complete(table, pk, sequence_sk(offset), each, i);
    if exists|k: int| 0 <= k < keys.len() && #[trigger] keys[k] == table[i].sk {
        let k = choose|k: int| 0 <= k < keys.len() && #[trigger] keys[k] == table[i].sk;
        assert(held_at(table, pk, keys[k], rows[k]));
        let at = choose|at: int|
            0 <= at < table.len() && #[trigger] table[at] == (Entry {
                pk,
                sk: keys[k],
                row: rows[k],
            });
        // No two rows stand under the same keys: it is the row of the event.
        assert(at == i) by {
            if at < i {
                assert(!(table[at].pk == table[i].pk && table[at].sk == table[i].sk));
            }
            if i < at {
                assert(!(table[i].pk == table[at].pk && table[i].sk == table[at].sk));
            }
        }
        lemma_event_among(rows, k, event);
    } else {
        assert forall|k: int| 0 <= k < found.len() implies (#[trigger] found[k]).sequence
            < event.sequence by {
            let j = choose|j: int|
                0 <= j < rows.len() && #[trigger] keys[j] == sequence_sk(found[k].sequence);
            assert(lex_less(keys[j], table[i].sk));
            lemma_sequence_sk_order(found[k].sequence, event.sequence);
        }
    }
}

/// What a poll has read from the partitions below `upto`: one offset for
/// each of them, in order, and events of those partitions only, none of them
/// beyond the offset of its partition.
pub proof fn lemma_reads(
    table: Seq<Entry>,
    stream_id: Seq<char>,
    subscription_id: Seq<char>,
    partition_count: u32,
    limit: u32,
    upto: u32,
)
    requires
        events_keyed(table),
    ensures
        reads(table, stream_id, subscription_id, partition_count, limit, upto) matches Ok(
            (offsets, events),
        ) ==> {
            &&& offsets.len() == upto
            &&& forall|i: int| 0 <= i < offsets.len() ==> (#[trigger] offsets[i]).partition == i
            &&& forall|q: u32| upto <= q ==> last_offset_for(offsets, q) is None
            &&& forall|k: int|
                0 <= k < events.len() ==> {
                    &&& (#[trigger] events[k]).partition < upto
                    &&& events[k].stream_id == stream_id
                    &&& events[k].sequence > committed_offset(
                        table,
                        stream_id,
                        subscription_id,
                        events[k].partition,
                    )
                    &&& holds_event(table, events[k])
                    &&& last_offset_for(offsets, events[k].partition) matches Some(reached)
                    &&& events[k].sequence <= reached
                }
        },
    decreases upto,
{
    let all = reads(table, stream_id, subscription_id, partition_count, limit, upto);
    if upto > 0 && all is Ok {
        let p = (upto - 1) as u32;
        lemma_reads(table, stream_id, subscription_id, partition_count, limit, p);
        lemma_partition_read(table, stream_id, subscription_id, partition_count, limit, p);
        let (before, earlier) = reads(
            table,
            stream_id,
            subscription_id,
            partition_count,
            limit,
            p,
        )->Ok_0;
        let found = partition_read(table, stream_id, subscription_id, partition_count, limit, p);
        let (offsets, events) = all->Ok_0;
        assert(offsets.drop_last() =~= before);
        assert(offsets.last().partition == p);
        assert forall|i: int| 0 <= i < offsets.len() implies (#[trigger] offsets[i]).partition
            == i by {
            if i < before.len() {
                assert(offsets[i] == before[i]);
            }
        }
        assert forall|q: u32| upto <= q implies last_offset_for(offsets, q) is None by {
            assert(last_offset_for(offsets, q) == last_offset_for(before, q));
        }
        assert forall|k: int| 0 <= k < events.len() implies {
            &&& (#[trigger] events[k]).partition < upto
            &&& events[k].stream_id == stream_id
            &&& events[k].sequence > committed_offset(
                table,
                stream_id,
                subscription_id,
                events[k].partition,
            )
            &&& holds_event(table, events[k])
            &&& last_offset_for(offsets, events[k].partition) matches Some(reached)
            &&& events[k].sequence <= reached
        } by {
            if k < earlier.len() {
                assert(events[k] == earlier[k]);
                assert(last_offset_for(offsets, events[k].partition) == last_offset_for(
                    before,
                    events[k].partition,
                ));
            } else {
                assert(events[k] == found[k - earlier.len()]);
                assert(last_offset_for(offsets, p) == Some(offsets.last().offset));
            }
        }
    }
}

/// Every event of a poll's response is one of the events that the poll
/// read.
pub proof fn lemma_outcome_events(
    limit: u32,
    read: Result<(Seq<PartitionOffset>, Seq<EventView>), ErrorView>,
)
    ensures
        poll_outcome(limit, read) matches Ok(response) ==> read is Ok && forall|k: int|
            0 <= k < response.events.len() ==> read->Ok_0.1.contains(
                #[trigger] response.events[k],
            ),
{
    broadcast use vstd::seq_lib::group_to_multiset_ensures;

    if poll_outcome(limit, read) is Ok {
        let response = poll_outcome(limit, read)->Ok_0;
        let events = read->Ok_0.1;
        let sorted = sort_by_time(events);
        lemma_sort_by_time(events);
        assert forall|k: int| 0 <= k < response.events.len() implies events.contains(
            #[trigger] response.events[k],
        ) by {
            assert(response.events[k] == sorted[k]);
            assert(sorted.contains(sorted[k]));
            assert(events.to_multiset().count(sorted[k]) > 0);
        }
    }
}

/// Commit acknowledges: once the offsets that a poll has read up to are
/// committed, no later poll returns an event that the first poll had read.
/// Whatever a poll returns after the commit lies, in its partition, beyond
/// everything that the first poll read there.
pub proof fn law_commit_acknowledges(
    stream_id: Seq<char>,
    subscription_id: Seq<char>,
    stream: StreamView,
    first_limit: u32,
    now: Timestamp,
    second_limit: u32,
    table: Seq<Entry>,
    commit_fuel: nat,
    poll_fuel: nat,
)
    requires
        events_keyed(table),
        lookup(table, stream_pk(stream_id), meta_sk()) == Some(RowView::Stream(stream)),
        lookup(table, stream_pk(stream_id), subscription_sk(subscription_id)) is Some,
        lookup(table, stream_pk(stream_id), subscription_sk(subscription_id))->0 is Subscription,
        reads(
            table,
            stream_id,
            subscription_id,
            stream.partition_count,
            first_limit,
            stream.partition_count,
        ) is Ok,
        commit_fuel >= stream.partition_count + 2,
    ensures
        ({
            let (offsets, read) = reads(
                table,
                stream_id,
                subscription_id,
                stream.partition_count,
                first_limit,
                stream.partition_count,
            )->Ok_0;
            let (committed, done) = run(
                CommitOffsetsModel::start(stream_id, subscription_id, offsets, now),
                table,
                commit_fuel,
            );
            let (_, result) = run(
                PollModel::start(stream_id, subscription_id, second_limit),
                committed,
                poll_fuel,
            );
            &&& done == Some(Ok::<(), ErrorView>(()))
            &&& result matches Some(Ok(response)) ==> forall|k: int, j: int|
                0 <= k < response.events.len() && 0 <= j < read.len() && (
                #[trigger] response.events[k]).partition == (#[trigger] read[j]).partition
                    ==> response.events[k].sequence > read[j].sequence
        }),
{
    let count = stream.partition_count;
    let (offsets, read) = reads(table, stream_id, subscription_id, count, first_limit, count)->Ok_0;
    lemma_reads(table, stream_id, subscription_id, count, first_limit, count);
    assert(partitions_in_range(offsets, count));
    law_poll_after_commit(
        stream_id,
        subscription_id,
        offsets,
        now,
        second_limit,
        table,
        commit_fuel,
        poll_fuel,
    );
}

} // verus!
