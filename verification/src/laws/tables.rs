//! Facts about the model table that the laws of the operations rest on.

use crate::keys::{counter_sk, partition_pk, sequence_sk};
use crate::store::{
    answer, least_after, lookup, proceed, rows_after, with_row, without, Entry, Machine, ReplyView,
    RequestView, RowView, StepView,
};
use crate::text::{lemma_lex_less_total, lemma_lex_less_transitive, lex_less};
use vstd::prelude::*;

verus! {

/// The last sequence number that a partition has given out; zero where the
/// table holds no counter for it.
pub open spec fn counter_of(table: Seq<Entry>, stream_id: Seq<char>, partition: u32) -> u64 {
    match lookup(table, partition_pk(stream_id, partition), counter_sk()) {
        Some(RowView::Counter(sequence)) => sequence,
        _ => 0,
    }
}

/// Whether an entry, if it is an event, stands under the keys of that
/// event: the partition key of its stream and partition, and the sort key
/// of its sequence number.
pub open spec fn entry_keyed(e: Entry) -> bool {
    match e.row {
        RowView::Event(event) => e.pk == partition_pk(event.stream_id, event.partition) && e.sk
            == sequence_sk(event.sequence),
        _ => true,
    }
}

/// Whether every event of the table stands under its own keys.
pub open spec fn events_keyed(table: Seq<Entry>) -> bool {
    forall|i: int| 0 <= i < table.len() ==> entry_keyed(#[trigger] table[i])
}

/// Whether a request writes no event under keys that are not its own.
pub open spec fn request_keeps_events_keyed(request: RequestView) -> bool {
    match request {
        RequestView::Put { pk, sk, row } => entry_keyed(Entry { pk, sk, row }),
        RequestView::PutIfAbsent { pk, sk, row } => entry_keyed(Entry { pk, sk, row }),
        _ => true,
    }
}

/// Removing a row keeps every event under its own keys.
pub proof fn lemma_without_keeps_events_keyed(table: Seq<Entry>, pk: Seq<char>, sk: Seq<char>)
    requires
        events_keyed(table),
    ensures
        events_keyed(without(table, pk, sk)),
{
    let keep = |e: Entry| !(e.pk == pk && e.sk == sk);
    let kept = table.filter(keep);
    assert forall|i: int| 0 <= i < kept.len() implies entry_keyed(#[trigger] kept[i]) by {
        assert(kept.contains(kept[i]));
        table.lemma_filter_contains_rev(keep, kept[i]);
        let j = choose|j: int| 0 <= j < table.len() && table[j] == kept[i];
        assert(entry_keyed(table[j]));
    }
}

/// Writing a row that is no event, or an event under its own keys, keeps
/// every event under its own keys.
pub proof fn lemma_with_row_keeps_events_keyed(
    table: Seq<Entry>,
    pk: Seq<char>,
    sk: Seq<char>,
    row: RowView,
)
    requires
        events_keyed(table),
        entry_keyed(Entry { pk, sk, row }),
    ensures
        events_keyed(with_row(table, pk, sk, row)),
{
    lemma_without_keeps_events_keyed(table, pk, sk);
    let kept = without(table, pk, sk);
    let written = with_row(table, pk, sk, row);
    assert forall|i: int| 0 <= i < written.len() implies entry_keyed(#[trigger] written[i]) by {
        if i < kept.len() {
            assert(written[i] == kept[i]);
        }
    }
}

/// The table's answer to a request that writes no misplaced event keeps
/// every event under its own keys.
pub proof fn lemma_answer_keeps_events_keyed(table: Seq<Entry>, request: RequestView)
    requires
        events_keyed(table),
        request_keeps_events_keyed(request),
    ensures
        events_keyed(answer(table, request).0),
{
    match request {
        RequestView::Put { pk, sk, row } => {
            lemma_with_row_keeps_events_keyed(table, pk, sk, row);
        },
        RequestView::PutIfAbsent { pk, sk, row } => {
            lemma_with_row_keeps_events_keyed(table, pk, sk, row);
        },
        RequestView::Delete { pk, sk } => {
            lemma_without_keeps_events_keyed(table, pk, sk);
        },
        RequestView::Increment { pk, sk } => {
            match crate::store::lookup(table, pk, sk) {
                Some(RowView::Counter(n)) => {
                    if n < u64::MAX {
                        lemma_with_row_keeps_events_keyed(
                            table,
                            pk,
                            sk,
                            RowView::Counter((n + 1) as u64),
                        );
                    }
                },
                _ => {},
            }
        },
        _ => {},
    }
}

/// Whether an operation never asks to write an event under keys that are
/// not its own, whatever state it is in and whatever it is told.
pub open spec fn writes_events_keyed<M: Machine>() -> bool {
    forall|m: M, reply: Option<ReplyView>|
        (#[trigger] m.next(reply)).1 matches StepView::Call(request)
            ==> request_keeps_events_keyed(request)
}

/// An operation that never asks to write a misplaced event leaves every
/// event of the table under its own keys, however far it runs.
pub proof fn lemma_proceed_keeps_events_keyed<M: Machine>(
    state: (M, StepView<M::Out>),
    table: Seq<Entry>,
    fuel: nat,
)
    requires
        events_keyed(table),
        writes_events_keyed::<M>(),
        state.1 matches StepView::Call(request) ==> request_keeps_events_keyed(request),
    ensures
        events_keyed(proceed(state, table, fuel).0),
    decreases fuel,
{
    match state.1 {
        StepView::Call(request) => {
            if fuel > 0 {
                lemma_answer_keeps_events_keyed(table, request);
                let (after, reply) = answer(table, request);
                let next = state.0.next(Some(reply));
                lemma_proceed_keeps_events_keyed(next, after, (fuel - 1) as nat);
            }
        },
        StepView::Done(_) => {},
    }
}

/// The row that `least_after` finds is a row of the table, under the
/// partition key and after the sort key that were asked for.
pub proof fn lemma_least_after(table: Seq<Entry>, pk: Seq<char>, after: Seq<char>)
    ensures
        least_after(table, pk, after) matches Some(e) ==> e.pk == pk && lex_less(after, e.sk)
            && exists|i: int| 0 <= i < table.len() && #[trigger] table[i] == e,
    decreases table.len(),
{
    if table.len() > 0 {
        lemma_least_after(table.drop_last(), pk, after);
        let best = least_after(table.drop_last(), pk, after);
        let found = least_after(table, pk, after);
        if found is Some {
            if found == best {
                let i = choose|i: int|
                    0 <= i < table.drop_last().len() && #[trigger] table.drop_last()[i] == best->0;
                assert(table[i] == found->0);
            } else {
                assert(table[table.len() - 1] == found->0);
            }
        }
    }
}

/// Whether a request changes nothing in the table.
pub open spec fn request_reads_only(request: RequestView) -> bool {
    match request {
        RequestView::Get { pk, sk } => true,
        RequestView::QueryAfter { pk, after, limit } => true,
        RequestView::QueryPrefix { pk, prefix } => true,
        RequestView::ScanStreams => true,
        _ => false,
    }
}

/// Whether an operation never asks to change the table, whatever state it
/// is in and whatever it is told.
pub open spec fn reads_only<M: Machine>() -> bool {
    forall|m: M, reply: Option<ReplyView>|
        (#[trigger] m.next(reply)).1 matches StepView::Call(request) ==> request_reads_only(
            request,
        )
}

/// An operation that never asks to change the table leaves it as it is,
/// however far it runs.
pub proof fn lemma_proceed_reads_only<M: Machine>(
    state: (M, StepView<M::Out>),
    table: Seq<Entry>,
    fuel: nat,
)
    requires
        reads_only::<M>(),
        state.1 matches StepView::Call(request) ==> request_reads_only(request),
    ensures
        proceed(state, table, fuel).0 == table,
    decreases fuel,
{
    match state.1 {
        StepView::Call(request) => {
            if fuel > 0 {
                let (after, reply) = answer(table, request);
                lemma_proceed_reads_only(state.0.next(Some(reply)), after, (fuel - 1) as nat);
            }
        },
        StepView::Done(_) => {},
    }
}

/// Whether the table holds the event in one of its rows.
pub open spec fn holds_event(table: Seq<Entry>, event: crate::models::EventView) -> bool {
    exists|i: int| 0 <= i < table.len() && (#[trigger] table[i]).row == RowView::Event(event)
}

/// Whether every event of `table` is an event of `before`.
pub open spec fn events_from(table: Seq<Entry>, before: Seq<Entry>) -> bool {
    forall|i: int|
        0 <= i < table.len() && (#[trigger] table[i]).row is Event ==> holds_event(
            before,
            table[i].row->Event_0,
        )
}

/// Whether a request writes no event.
pub open spec fn request_writes_no_event(request: RequestView) -> bool {
    match request {
        RequestView::Put { pk, sk, row } => !(row is Event),
        RequestView::PutIfAbsent { pk, sk, row } => !(row is Event),
        _ => true,
    }
}

/// Whether an operation never asks to write an event, whatever state it is
/// in and whatever it is told.
pub open spec fn writes_no_event<M: Machine>() -> bool {
    forall|m: M, reply: Option<ReplyView>|
        (#[trigger] m.next(reply)).1 matches StepView::Call(request) ==> request_writes_no_event(
            request,
        )
}

/// The table's answer to a request that writes no event holds no event
/// that the table did not hold.
pub proof fn lemma_answer_keeps_events_from(
    table: Seq<Entry>,
    before: Seq<Entry>,
    request: RequestView,
)
    requires
        events_from(table, before),
        request_writes_no_event(request),
    ensures
        events_from(answer(table, request).0, before),
{
    let after = answer(table, request).0;
    if after != table {
        // Every write is a removal, or a removal and one more row.
        let (pk, sk) = match request {
            RequestView::Put { pk, sk, row } => (pk, sk),
            RequestView::PutIfAbsent { pk, sk, row } => (pk, sk),
            RequestView::Delete { pk, sk } => (pk, sk),
            RequestView::Increment { pk, sk } => (pk, sk),
            _ => (Seq::empty(), Seq::empty()),
        };
        let keep = |e: Entry| !(e.pk == pk && e.sk == sk);
        let kept = table.filter(keep);
        assert(kept == without(table, pk, sk));
        assert forall|i: int| 0 <= i < after.len() && (#[trigger] after[i]).row is Event implies
            holds_event(before, after[i].row->Event_0) by {
            assert(i < kept.len());
            assert(after[i] == kept[i]);
            assert(kept.contains(kept[i]));
            table.lemma_filter_contains_rev(keep, kept[i]);
            let j = choose|j: int| 0 <= j < table.len() && table[j] == kept[i];
            assert(table[j].row is Event);
        }
    }
}

/// An operation that never asks to write an event leaves no event in the
/// table that was not there, however far it runs.
pub proof fn lemma_proceed_keeps_events_from<M: Machine>(
    state: (M, StepView<M::Out>),
    table: Seq<Entry>,
    before: Seq<Entry>,
    fuel: nat,
)
    requires
        events_from(table, before),
        writes_no_event::<M>(),
        state.1 matches StepView::Call(request) ==> request_writes_no_event(request),
    ensures
        events_from(proceed(state, table, fuel).0, before),
    decreases fuel,
{
    match state.1 {
        StepView::Call(request) => {
            if fuel > 0 {
                lemma_answer_keeps_events_from(table, before, request);
                let (after, reply) = answer(table, request);
                lemma_proceed_keeps_events_from(
                    state.0.next(Some(reply)),
                    after,
                    before,
                    (fuel - 1) as nat,
                );
            }
        },
        StepView::Done(_) => {},
    }
}

/// The sort keys of the rows that a query for the rows after a sort key
/// finds, row by row.
pub open spec fn keys_after(table: Seq<Entry>, pk: Seq<char>, after: Seq<char>, limit: nat) -> Seq<
    Seq<char>,
>
    decreases limit,
{
    if limit == 0 {
        Seq::empty()
    } else {
        match least_after(table, pk, after) {
            None => Seq::empty(),
            Some(e) => seq![e.sk] + keys_after(table, pk, e.sk, (limit - 1) as nat),
        }
    }
}

/// Whether the table holds `row` under the given keys.
pub open spec fn held_at(table: Seq<Entry>, pk: Seq<char>, sk: Seq<char>, row: RowView) -> bool {
    exists|i: int| 0 <= i < table.len() && #[trigger] table[i] == (Entry { pk, sk, row })
}

/// A query for the rows after a sort key finds rows of the table, each
/// under its sort key, and the sort keys rise from row to row; all of them
/// come after the sort key that was asked for.
pub proof fn lemma_rows_after_sorted(
    table: Seq<Entry>,
    pk: Seq<char>,
    after: Seq<char>,
    limit: nat,
)
    ensures
        keys_after(table, pk, after, limit).len() == rows_after(table, pk, after, limit).len(),
        forall|k: int|
            0 <= k < rows_after(table, pk, after, limit).len() ==> held_at(
                table,
                pk,
                #[trigger] keys_after(table, pk, after, limit)[k],
                rows_after(table, pk, after, limit)[k],
            ) && lex_less(after, keys_after(table, pk, after, limit)[k]),
        forall|j: int, k: int|
            0 <= j < k < keys_after(table, pk, after, limit).len() ==> lex_less(
                #[trigger] keys_after(table, pk, after, limit)[j],
                #[trigger] keys_after(table, pk, after, limit)[k],
            ),
    decreases limit,
{
    if limit > 0 {
        lemma_least_after(table, pk, after);
        match least_after(table, pk, after) {
            Some(e) => {
                let rest_rows = rows_after(table, pk, e.sk, (limit - 1) as nat);
                let rest_keys = keys_after(table, pk, e.sk, (limit - 1) as nat);
                lemma_rows_after_sorted(table, pk, e.sk, (limit - 1) as nat);
                let rows = rows_after(table, pk, after, limit);
                let keys = keys_after(table, pk, after, limit);
                assert(rows =~= seq![e.row] + rest_rows);
                assert(keys =~= seq![e.sk] + rest_keys);
                assert forall|k: int| 0 <= k < rows.len() implies held_at(
                    table,
                    pk,
                    #[trigger] keys[k],
                    rows[k],
                ) && lex_less(after, keys[k]) by {
                    if k == 0 {
                        let i = choose|i: int| 0 <= i < table.len() && #[trigger] table[i] == e;
                        assert(table[i] == (Entry { pk, sk: keys[0], row: rows[0] }));
                    } else {
                        assert(keys[k] == rest_keys[k - 1]);
                        assert(rows[k] == rest_rows[k - 1]);
                        lemma_lex_less_transitive(after, e.sk, rest_keys[k - 1]);
                    }
                }
                assert forall|j: int, k: int| 0 <= j < k < keys.len() implies lex_less(
                    #[trigger] keys[j],
                    #[trigger] keys[k],
                ) by {
                    assert(keys[k] == rest_keys[k - 1]);
                    if j > 0 {
                        assert(keys[j] == rest_keys[j - 1]);
                    }
                }
            },
            None => {},
        }
    }
}

/// Whether no two rows of the table stand under the same keys.
pub open spec fn distinct_keys(table: Seq<Entry>) -> bool {
    forall|i: int, j: int|
        0 <= i < j < table.len() ==> !((#[trigger] table[i]).pk == (#[trigger] table[j]).pk
            && table[i].sk == table[j].sk)
}

/// Removing a row leaves no two rows under the same keys, and no row under
/// the keys of the row removed.
pub proof fn lemma_without_keeps_distinct(table: Seq<Entry>, pk: Seq<char>, sk: Seq<char>)
    requires
        distinct_keys(table),
    ensures
        distinct_keys(without(table, pk, sk)),
        forall|i: int|
            0 <= i < without(table, pk, sk).len() ==> !((#[trigger] without(table, pk, sk)[i]).pk
                == pk && without(table, pk, sk)[i].sk == sk),
    decreases table.len(),
{
    reveal(Seq::filter);
    let keep = |e: Entry| !(e.pk == pk && e.sk == sk);
    if table.len() > 0 {
        let front = table.drop_last();
        assert forall|i: int, j: int| 0 <= i < j < front.len() implies !((#[trigger] front[i]).pk
            == (#[trigger] front[j]).pk && front[i].sk == front[j].sk) by {
            assert(front[i] == table[i] && front[j] == table[j]);
        }
        lemma_without_keeps_distinct(front, pk, sk);
        let kept = front.filter(keep);
        let all = table.filter(keep);
        if keep(table.last()) {
            assert(all == kept.push(table.last()));
            assert forall|i: int, j: int| 0 <= i < j < all.len() implies !((#[trigger] all[i]).pk
                == (#[trigger] all[j]).pk && all[i].sk == all[j].sk) by {
                if j < kept.len() {
                    assert(all[i] == kept[i] && all[j] == kept[j]);
                } else {
                    assert(all[i] == kept[i]);
                    assert(kept.contains(kept[i]));
                    front.lemma_filter_contains_rev(keep, kept[i]);
                    let at = choose|at: int| 0 <= at < front.len() && front[at] == kept[i];
                    assert(table[at] == kept[i]);
                    assert(table[table.len() - 1] == all[j]);
                }
            }
            assert forall|i: int| 0 <= i < all.len() implies !((#[trigger] all[i]).pk == pk
                && all[i].sk == sk) by {
                if i < kept.len() {
                    assert(all[i] == kept[i]);
                }
            }
        } else {
            assert(all == kept);
        }
    }
}

/// The table's answer to any request leaves no two rows under the same
/// keys.
pub proof fn lemma_answer_keeps_distinct(table: Seq<Entry>, request: RequestView)
    requires
        distinct_keys(table),
    ensures
        distinct_keys(answer(table, request).0),
{
    let after = answer(table, request).0;
    if after != table {
        let (pk, sk) = match request {
            RequestView::Put { pk, sk, row } => (pk, sk),
            RequestView::PutIfAbsent { pk, sk, row } => (pk, sk),
            RequestView::Delete { pk, sk } => (pk, sk),
            RequestView::Increment { pk, sk } => (pk, sk),
            _ => (Seq::empty(), Seq::empty()),
        };
        lemma_without_keeps_distinct(table, pk, sk);
        let kept = without(table, pk, sk);
        assert forall|i: int, j: int| 0 <= i < j < after.len() implies !((#[trigger] after[i]).pk
            == (#[trigger] after[j]).pk && after[i].sk == after[j].sk) by {
            assert(after[i] == kept[i]);
            if j < kept.len() {
                assert(after[j] == kept[j]);
            }
        }
    }
}

/// Whatever operation runs, and however far, it leaves no two rows of the
/// table under the same keys.
pub proof fn law_operations_keep_distinct_keys<M: Machine>(
    state: (M, StepView<M::Out>),
    table: Seq<Entry>,
    fuel: nat,
)
    requires
        distinct_keys(table),
    ensures
        distinct_keys(proceed(state, table, fuel).0),
    decreases fuel,
{
    match state.1 {
        StepView::Call(request) => {
            if fuel > 0 {
                lemma_answer_keeps_distinct(table, request);
                let (after, reply) = answer(table, request);
                law_operations_keep_distinct_keys(
                    state.0.next(Some(reply)),
                    after,
                    (fuel - 1) as nat,
                );
            }
        },
        StepView::Done(_) => {},
    }
}

/// The row that `least_after` finds has the least sort key: no row of the
/// partition key after `after` comes before it.
pub proof fn lemma_least_after_least(
    table: Seq<Entry>,
    pk: Seq<char>,
    after: Seq<char>,
    i: int,
)
    requires
        0 <= i < table.len(),
        table[i].pk == pk,
        lex_less(after, table[i].sk),
    ensures
        least_after(table, pk, after) matches Some(least) && (least.sk == table[i].sk || lex_less(
            least.sk,
            table[i].sk,
        )),
    decreases table.len(),
{
    let front = table.drop_last();
    let best = least_after(front, pk, after);
    let last = table.last();
    if i < table.len() - 1 {
        assert(front[i] == table[i]);
        lemma_least_after_least(front, pk, after, i);
        if last.pk == pk && lex_less(after, last.sk) && lex_less(last.sk, best->0.sk) {
            if best->0.sk != table[i].sk {
                lemma_lex_less_transitive(last.sk, best->0.sk, table[i].sk);
            }
        }
    } else {
        if best is Some && !lex_less(last.sk, best->0.sk) {
            lemma_lex_less_total(last.sk, best->0.sk);
        }
    }
}

/// A query for the rows after a sort key leaves out no row: a row of the
/// partition key after that sort key is found, unless the query found as
/// many rows as it may and all of them come before the row.
pub proof fn lemma_rows_after_complete(
    table: Seq<Entry>,
    pk: Seq<char>,
    after: Seq<char>,
    limit: nat,
    i: int,
)
    requires
        0 <= i < table.len(),
        table[i].pk == pk,
        lex_less(after, table[i].sk),
    ensures
        ({
            let keys = keys_after(table, pk, after, limit);
            ||| exists|k: int| 0 <= k < keys.len() && #[trigger] keys[k] == table[i].sk
            ||| keys.len() == limit && forall|k: int|
                0 <= k < keys.len() ==> lex_less(#[trigger] keys[k], table[i].sk)
        }),
    decreases limit,
{
    if limit > 0 {
        lemma_least_after_least(table, pk, after, i);
        let least = least_after(table, pk, after)->0;
        let rest = keys_after(table, pk, least.sk, (limit - 1) as nat);
        let keys = keys_after(table, pk, after, limit);
        assert(keys =~= seq![least.sk] + rest);
        if least.sk == table[i].sk {
            assert(keys[0] == table[i].sk);
        } else {
            lemma_rows_after_complete(table, pk, least.sk, (limit - 1) as nat, i);
            if exists|k: int| 0 <= k < rest.len() && #[trigger] rest[k] == table[i].sk {
                let k = choose|k: int| 0 <= k < rest.len() && #[trigger] rest[k] == table[i].sk;
                assert(keys[k + 1] == table[i].sk);
            } else {
                assert forall|k: int| 0 <= k < keys.len() implies lex_less(
                    #[trigger] keys[k],
                    table[i].sk,
                ) by {
                    if k > 0 {
                        assert(keys[k] == rest[k - 1]);
                    }
                }
            }
        }
    }
}

} // verus!
