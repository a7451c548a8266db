//! Laws of the subscription registry.

use crate::errors::ErrorView;
use crate::keys::{
    counter_sk, lemma_fixed_sk_kinds, lemma_offset_sk_injective, lemma_offset_sk_kind, meta_sk,
    offset_sk, offsets_pk, partition_pk, stream_pk, subscription_sk,
};
use crate::laws::invariants::law_create_subscription_keeps_events_keyed;
use crate::laws::polling::{law_poll_effect, lemma_outcome_events, lemma_reads};
use crate::laws::tables::{
    counter_of, events_from, events_keyed, holds_event, lemma_proceed_keeps_events_from,
    writes_no_event,
};
use crate::models::{StartFrom, StreamView, SubscriptionView, Timestamp};
use crate::poll::{committed_offset, polled, reads, PollModel};
use crate::replies::latest_of_reply;
use crate::store::{
    answer, lemma_lookup_other, lemma_lookup_written, lookup, proceed, run, with_row, Entry,
    Machine, ReplyView, RowView,
};
use crate::subscriptions::{CreateSubscriptionModel, SubscribePhase};
use vstd::prelude::*;

verus! {

/// The offset at which a new subscription starts in a partition: the
/// partition's counter to start from the latest event, else zero.
pub open spec fn first_offset(
    table: Seq<Entry>,
    stream_id: Seq<char>,
    start_from: StartFrom,
    partition: u32,
) -> u64 {
    if start_from == StartFrom::Latest {
        counter_of(table, stream_id, partition)
    } else {
        0
    }
}

/// Whether the counter of a partition can be read: the table holds a counter
/// for it, or nothing.
pub open spec fn counter_readable(table: Seq<Entry>, stream_id: Seq<char>, partition: u32) -> bool {
    latest_of_reply(
        ReplyView::Item(lookup(table, partition_pk(stream_id, partition), counter_sk())),
    ) is Ok
}

/// Whether a key is none of the offsets of the subscription.
pub open spec fn is_no_offset_key(
    stream_id: Seq<char>,
    subscription_id: Seq<char>,
    pk: Seq<char>,
    sk: Seq<char>,
) -> bool {
    pk != offsets_pk(stream_id, subscription_id) || forall|p: u32| sk != #[trigger] offset_sk(p)
}

/// Writing the first offsets from partition `p` on ends the creation of a
/// subscription with success: every partition then has its first offset, and
/// no other row has changed.
pub proof fn lemma_first_offsets(
    m: CreateSubscriptionModel,
    p: u32,
    before: Seq<Entry>,
    table: Seq<Entry>,
    fuel: nat,
)
    requires
        p <= m.partition_count,
        fuel >= 2 * (m.partition_count - p),
        forall|pk: Seq<char>, sk: Seq<char>|
            is_no_offset_key(m.stream_id, m.subscription_id, pk, sk) ==> #[trigger] lookup(
                table,
                pk,
                sk,
            ) == lookup(before, pk, sk),
        forall|q: u32|
            q < p ==> #[trigger] committed_offset(table, m.stream_id, m.subscription_id, q)
                == first_offset(before, m.stream_id, m.start_from, q),
        m.start_from == StartFrom::Latest ==> forall|q: u32|
            q < m.partition_count ==> #[trigger] counter_readable(before, m.stream_id, q),
    ensures
        ({
            let (after, result) = proceed(m.offsets_from(p), table, fuel);
            &&& result == Some(Ok::<SubscriptionView, ErrorView>(m.subscription()))
            &&& forall|pk: Seq<char>, sk: Seq<char>|
                is_no_offset_key(m.stream_id, m.subscription_id, pk, sk) ==> #[trigger] lookup(
                    after,
                    pk,
                    sk,
                ) == lookup(before, pk, sk)
            &&& forall|q: u32|
                q < m.partition_count ==> #[trigger] committed_offset(
                    after,
                    m.stream_id,
                    m.subscription_id,
                    q,
                ) == first_offset(before, m.stream_id, m.start_from, q)
        }),
    decreases m.partition_count - p,
{
    let sid = m.stream_id;
    let sub = m.subscription_id;
    if p < m.partition_count {
        let s0 = m.offsets_from(p);
        let offset = first_offset(before, sid, m.start_from, p);
        let row = RowView::Offset { offset, committed_at: m.now };
        let pk = offsets_pk(sid, sub);
        let written = with_row(table, pk, offset_sk(p), row);
        lemma_offset_sk_kind(p, sub, 0);
        // The state in which the offset of `p` is being written.
        let writing = CreateSubscriptionModel { phase: SubscribePhase::Offset(p), ..m };
        if m.start_from == StartFrom::Latest {
            assert(is_no_offset_key(sid, sub, partition_pk(sid, p), counter_sk())) by {
                assert forall|q: u32| counter_sk() != #[trigger] offset_sk(q) by {
                    lemma_offset_sk_kind(q, sub, 0);
                }
            }
            let (t1, a1) = answer(table, s0.1->Call_0);
            let s1 = s0.0.next(Some(a1));
            assert(proceed(s0, table, fuel) == proceed(s1, table, (fuel - 1) as nat));
            assert(counter_readable(before, sid, p));
            assert(s1 == s0.0.write_offset(p, offset));
            assert(answer(table, s1.1->Call_0) == (written, ReplyView::Done));
            let s2 = s1.0.next(Some(ReplyView::Done));
            assert(proceed(s1, table, (fuel - 1) as nat) == proceed(
                s2,
                written,
                (fuel - 2) as nat,
            ));
            assert(s1.0 == writing);
            assert(s2 == writing.offsets_from((p + 1) as u32));
        } else {
            assert(s0 == m.write_offset(p, 0));
            assert(answer(table, s0.1->Call_0) == (written, ReplyView::Done));
            let s1 = s0.0.next(Some(ReplyView::Done));
            assert(proceed(s0, table, fuel) == proceed(s1, written, (fuel - 1) as nat));
            assert(s0.0 == writing);
            assert(s1 == writing.offsets_from((p + 1) as u32));
        }
        assert forall|k: Seq<char>, sk: Seq<char>| is_no_offset_key(sid, sub, k, sk) implies
            #[trigger] lookup(written, k, sk) == lookup(before, k, sk) by {
            lemma_lookup_other(table, pk, offset_sk(p), row, k, sk);
        }
        assert forall|q: u32| q < p + 1 implies #[trigger] committed_offset(written, sid, sub, q)
            == first_offset(before, sid, m.start_from, q) by {
            if q == p {
                lemma_lookup_written(table, pk, offset_sk(p), row);
            } else {
                if offset_sk(q) == offset_sk(p) {
                    lemma_offset_sk_injective(q, p);
                }
                lemma_lookup_other(table, pk, offset_sk(p), row, pk, offset_sk(q));
                assert(committed_offset(written, sid, sub, q) == committed_offset(
                    table,
                    sid,
                    sub,
                    q,
                ));
            }
        }
        let rest = if m.start_from == StartFrom::Latest {
            (fuel - 2) as nat
        } else {
            (fuel - 1) as nat
        };
        lemma_first_offsets(writing, (p + 1) as u32, before, written, rest);
    }
}

/// Creating a subscription whose id is free, on a stream that is there,
/// succeeds. Afterwards the subscription is registered, every partition of
/// the stream has its first offset, and no other row has changed.
pub proof fn law_create_subscription(
    stream_id: Seq<char>,
    subscription_id: Seq<char>,
    start_from: StartFrom,
    now: Timestamp,
    table: Seq<Entry>,
    stream: StreamView,
    fuel: nat,
)
    requires
        subscription_id.len() > 0,
        lookup(table, stream_pk(stream_id), meta_sk()) == Some(RowView::Stream(stream)),
        lookup(table, stream_pk(stream_id), subscription_sk(subscription_id)) is None,
        start_from == StartFrom::Latest ==> forall|q: u32|
            q < stream.partition_count ==> #[trigger] counter_readable(table, stream_id, q),
        fuel >= 2 * stream.partition_count + 2,
    ensures
        ({
            let m = CreateSubscriptionModel::start(stream_id, subscription_id, start_from, now);
            let (after, result) = run(m, table, fuel);
            &&& result == Some(Ok::<SubscriptionView, ErrorView>(m.subscription()))
            &&& lookup(after, stream_pk(stream_id), subscription_sk(subscription_id)) == Some(
                RowView::Subscription(m.subscription()),
            )
            &&& forall|q: u32|
                q < stream.partition_count ==> #[trigger] committed_offset(
                    after,
                    stream_id,
                    subscription_id,
                    q,
                ) == first_offset(table, stream_id, start_from, q)
            &&& forall|pk: Seq<char>, sk: Seq<char>|
                is_no_offset_key(stream_id, subscription_id, pk, sk) && !(pk == stream_pk(
                    stream_id,
                ) && sk == subscription_sk(subscription_id)) ==> #[trigger] lookup(after, pk, sk)
                    == lookup(table, pk, sk)
        }),
{
    let m = CreateSubscriptionModel::start(stream_id, subscription_id, start_from, now);
    let s0 = m.next(None);
    let (t1, a1) = answer(table, s0.1->Call_0);
    let s1 = s0.0.next(Some(a1));
    assert(run(m, table, fuel) == proceed(s1, table, (fuel - 1) as nat));
    let row = RowView::Subscription(m.subscription());
    let registered = with_row(table, stream_pk(stream_id), subscription_sk(subscription_id), row);
    assert(answer(table, s1.1->Call_0) == (registered, ReplyView::Done));
    let s2 = s1.0.next(Some(ReplyView::Done));
    assert(proceed(s1, table, (fuel - 1) as nat) == proceed(s2, registered, (fuel - 2) as nat));
    assert(s2 == s1.0.offsets_from(0));
    lemma_offset_sk_kind(0, subscription_id, 0);
    assert(is_no_offset_key(
        stream_id,
        subscription_id,
        stream_pk(stream_id),
        subscription_sk(subscription_id),
    )) by {
        assert forall|p: u32| subscription_sk(subscription_id) != #[trigger] offset_sk(p) by {
            lemma_offset_sk_kind(p, subscription_id, 0);
        }
    }
    lemma_lookup_written(table, stream_pk(stream_id), subscription_sk(subscription_id), row);
    if start_from == StartFrom::Latest {
        assert forall|q: u32| q < stream.partition_count implies #[trigger] counter_readable(
            registered,
            stream_id,
            q,
        ) by {
            lemma_fixed_sk_kinds(subscription_id);
            lemma_lookup_other(
                table,
                stream_pk(stream_id),
                subscription_sk(subscription_id),
                row,
                partition_pk(stream_id, q),
                counter_sk(),
            );
            assert(counter_readable(table, stream_id, q));
        }
    }
    lemma_first_offsets(s1.0, 0, registered, registered, (fuel - 2) as nat);
    let (after, _) = run(m, table, fuel);
    assert forall|q: u32| q < stream.partition_count implies #[trigger] committed_offset(
        after,
        stream_id,
        subscription_id,
        q,
    ) == first_offset(table, stream_id, start_from, q) by {
        lemma_fixed_sk_kinds(subscription_id);
        lemma_lookup_other(
            table,
            stream_pk(stream_id),
            subscription_sk(subscription_id),
            row,
            partition_pk(stream_id, q),
            counter_sk(),
        );
        assert(first_offset(registered, stream_id, start_from, q) == first_offset(
            table,
            stream_id,
            start_from,
            q,
        ));
    }
    assert forall|pk: Seq<char>, sk: Seq<char>|
        is_no_offset_key(stream_id, subscription_id, pk, sk) && !(pk == stream_pk(stream_id) && sk
            == subscription_sk(subscription_id)) implies #[trigger] lookup(after, pk, sk) == lookup(
        table,
        pk,
        sk,
    ) by {
        lemma_lookup_other(
            table,
            stream_pk(stream_id),
            subscription_sk(subscription_id),
            row,
            pk,
            sk,
        );
    }
}

/// Whether no event of the table has a sequence number above the counter of
/// its partition.
pub open spec fn counters_cover(table: Seq<Entry>) -> bool {
    forall|i: int|
        0 <= i < table.len() && (#[trigger] table[i]).row is Event ==> {
            let event = table[i].row->Event_0;
            event.sequence <= counter_of(table, event.stream_id, event.partition)
        }
}

/// A subscription that starts from the latest event sees only new events:
/// where no event lies above the counter of its partition, a poll that
/// follows the creation of the subscription returns no event.
pub proof fn law_latest_subscription_sees_nothing_old(
    stream_id: Seq<char>,
    subscription_id: Seq<char>,
    now: Timestamp,
    limit: u32,
    table: Seq<Entry>,
    stream: StreamView,
    fuel: nat,
)
    requires
        events_keyed(table),
        counters_cover(table),
        forall|q: u32|
            q < stream.partition_count ==> #[trigger] counter_readable(table, stream_id, q),
        subscription_id.len() > 0,
        lookup(table, stream_pk(stream_id), meta_sk()) == Some(RowView::Stream(stream)),
        lookup(table, stream_pk(stream_id), subscription_sk(subscription_id)) is None,
        fuel >= 2 * u32::MAX + 2,
    ensures
        ({
            let (after, _) = run(
                CreateSubscriptionModel::start(
                    stream_id,
                    subscription_id,
                    StartFrom::Latest,
                    now,
                ),
                table,
                fuel,
            );
            run(PollModel::start(stream_id, subscription_id, limit), after, fuel).1
                matches Some(Ok(response)) ==> response.events.len() == 0
        }),
{
    let m = CreateSubscriptionModel::start(stream_id, subscription_id, StartFrom::Latest, now);
    law_create_subscription(
        stream_id,
        subscription_id,
        StartFrom::Latest,
        now,
        table,
        stream,
        fuel,
    );
    law_create_subscription_keeps_events_keyed(m, table, fuel);
    assert(writes_no_event::<CreateSubscriptionModel>());
    assert(events_from(table, table));
    lemma_proceed_keeps_events_from(m.next(None), table, table, fuel);
    let (after, _) = run(m, table, fuel);
    law_poll_effect(stream_id, subscription_id, limit, after, fuel);
    let result = polled(after, stream_id, subscription_id, limit);
    lemma_fixed_sk_kinds(subscription_id);
    assert(is_no_offset_key(stream_id, subscription_id, stream_pk(stream_id), meta_sk())) by {
        assert forall|p: u32| meta_sk() != #[trigger] offset_sk(p) by {
            lemma_offset_sk_kind(p, subscription_id, 0);
        }
    }
    assert(lookup(after, stream_pk(stream_id), meta_sk()) == Some(RowView::Stream(stream)));
    if result is Ok {
        let response = result->Ok_0;
        let count = stream.partition_count;
        let asked = if limit == 0 {
            1u32
        } else {
            limit
        };
        let read = reads(after, stream_id, subscription_id, count, asked, count);
        lemma_outcome_events(asked, read);
        lemma_reads(after, stream_id, subscription_id, count, asked, count);
        if response.events.len() > 0 {
            let event = response.events[0];
            let events = read->Ok_0.1;
            assert(events.contains(event));
            let k = choose|k: int| 0 <= k < events.len() && events[k] == event;
            assert(holds_event(after, events[k]));
            let i = choose|i: int|
                0 <= i < after.len() && (#[trigger] after[i]).row == RowView::Event(event);
            assert(holds_event(table, after[i].row->Event_0));
            let j = choose|j: int|
                0 <= j < table.len() && (#[trigger] table[j]).row == RowView::Event(event);
            assert(is_no_offset_key(
                stream_id,
                subscription_id,
                partition_pk(stream_id, event.partition),
                counter_sk(),
            )) by {
                assert forall|p: u32| counter_sk() != #[trigger] offset_sk(p) by {
                    lemma_offset_sk_kind(p, subscription_id, 0);
                }
            }
            // The event lies above the offset, which is the counter, and no
            // event lies above the counter: there is no such event.
            assert(committed_offset(after, stream_id, subscription_id, event.partition)
                == counter_of(table, stream_id, event.partition));
            assert(event.sequence > counter_of(table, stream_id, event.partition));
            assert(table[j].row->Event_0.sequence <= counter_of(
                table,
                stream_id,
                event.partition,
            ));
        }
    }
}

} // verus!
