//! A table in memory.
//!
//! It answers every request as the model of [`crate::store`] says a table
//! does, and never fails. It serves where no real table is at hand, and it
//! shows that the model can be met.

use crate::keys::meta_sk;
use crate::store::{
    answer, least_after, lookup, rows_after, rows_with_prefix, stream_rows, with_row, without,
    Entry, Row, RowView, StoreReply, StoreRequest,
};
use crate::text::{has_prefix, same_text, starts_with, text_less};
use vstd::prelude::*;
use vstd::string::StringExecFns;

verus! {

/// One row of the table in memory, with its key.
#[derive(Debug)]
pub struct Stored {
    pub pk: String,
    pub sk: String,
    pub row: Row,
}

impl DeepView for Stored {
    type V = Entry;

    open spec fn deep_view(&self) -> Entry {
        Entry { pk: self.pk@, sk: self.sk@, row: self.row@ }
    }
}

impl Clone for Stored {
    fn clone(&self) -> (copy: Self)
        ensures
            copy.deep_view() == self.deep_view(),
    {
        Stored { pk: self.pk.clone(), sk: self.sk.clone(), row: self.row.clone() }
    }
}

/// A table in memory.
#[derive(Debug)]
pub struct MemoryTable {
    entries: Vec<Stored>,
}

impl View for MemoryTable {
    type V = Seq<Entry>;

    closed spec fn view(&self) -> Seq<Entry> {
        self.entries.deep_view()
    }
}

impl MemoryTable {
    /// A table without rows.
    pub fn new() -> (table: Self)
        ensures
            table@ == Seq::<Entry>::empty(),
    {
        let table = MemoryTable { entries: Vec::new() };
        assert(table.entries.deep_view() =~= Seq::<Entry>::empty());
        table
    }

    /// The number of rows.
    pub fn len(&self) -> (count: usize)
        ensures
            count == self@.len(),
    {
        self.entries.len()
    }

    /// Whether an entry stands under the given key.
    fn has_key(entry: &Stored, pk: &str, sk: &str) -> (same: bool)
        ensures
            same == (entry.pk@ == pk@ && entry.sk@ == sk@),
    {
        same_text(entry.pk.as_str(), pk) && same_text(entry.sk.as_str(), sk)
    }

    /// The row at a key, if the table holds one.
    pub fn get(&self, pk: &str, sk: &str) -> (row: Option<Row>)
        ensures
            row.deep_view() == lookup(self@, pk@, sk@),
    {
        let ghost all = self@;
        let mut i: usize = self.entries.len();
        assert(all.take(i as int) =~= all);
        while i > 0
            invariant
                0 <= i <= self.entries.len(),
                all == self.entries.deep_view(),
                lookup(all, pk@, sk@) == lookup(all.take(i as int), pk@, sk@),
            decreases i,
        {
            let ghost part = all.take(i as int);
            assert(part.last() == self.entries[i - 1].deep_view());
            assert(part.drop_last() =~= all.take(i - 1));
            if Self::has_key(&self.entries[i - 1], pk, sk) {
                return Some(self.entries[i - 1].row.clone());
            }
            i = i - 1;
        }
        None
    }

    /// Takes the row at a key out of the table, if it holds one.
    fn remove(&mut self, pk: &str, sk: &str)
        ensures
            final(self)@ == without(old(self)@, pk@, sk@),
    {
        let ghost all = self@;
        let ghost keep = |e: Entry| !(e.pk == pk@ && e.sk == sk@);
        let mut kept: Vec<Stored> = Vec::new();
        let mut i: usize = 0;
        assert(all.take(0).filter(keep) =~= Seq::<Entry>::empty()) by {
            reveal(Seq::filter);
        }
        while i < self.entries.len()
            invariant
                0 <= i <= self.entries.len(),
                all == self.entries.deep_view(),
                keep == |e: Entry| !(e.pk == pk@ && e.sk == sk@),
                kept.deep_view() =~= all.take(i as int).filter(keep),
            decreases self.entries.len() - i,
        {
            let ghost part = all.take(i + 1);
            assert(part.drop_last() =~= all.take(i as int));
            assert(part.last() == self.entries[i as int].deep_view());
            assert(part.filter(keep) == if keep(part.last()) {
                part.drop_last().filter(keep).push(part.last())
            } else {
                part.drop_last().filter(keep)
            }) by {
                reveal(Seq::filter);
            }
            if !Self::has_key(&self.entries[i], pk, sk) {
                let ghost had = kept.deep_view();
                kept.push(self.entries[i].clone());
                assert(kept.deep_view() =~= had.push(part.last()));
            }
            i = i + 1;
        }
        assert(all.take(self.entries.len() as int) =~= all);
        self.entries = kept;
    }

    /// Writes a row at a key, in place of the row that the key held.
    pub fn put(&mut self, pk: String, sk: String, row: Row)
        ensures
            final(self)@ == with_row(old(self)@, pk@, sk@, row@),
    {
        self.remove(pk.as_str(), sk.as_str());
        let ghost had = self@;
        let ghost entry = Entry { pk: pk@, sk: sk@, row: row@ };
        self.entries.push(Stored { pk, sk, row });
        assert(self.entries.deep_view() =~= had.push(entry));
    }

    /// The place of the row of a partition key with the least sort key after
    /// `after`.
    fn least_after(&self, pk: &str, after: &str) -> (place: Option<usize>)
        ensures
            match least_after(self@, pk@, after@) {
                Some(e) => place is Some && place->0 < self@.len() && self@[place->0 as int] == e,
                None => place is None,
            },
    {
        let ghost all = self@;
        let mut best: Option<usize> = None;
        let mut i: usize = 0;
        while i < self.entries.len()
            invariant
                0 <= i <= self.entries.len(),
                all == self.entries.deep_view(),
                match least_after(all.take(i as int), pk@, after@) {
                    Some(e) => best is Some && best->0 < i && all[best->0 as int] == e,
                    None => best is None,
                },
            decreases self.entries.len() - i,
        {
            let ghost part = all.take(i + 1);
            assert(part.drop_last() =~= all.take(i as int));
            assert(part.last() == all[i as int]);
            let entry = &self.entries[i];
            if same_text(entry.pk.as_str(), pk) && text_less(after, entry.sk.as_str()) {
                let better = match best {
                    None => true,
                    Some(b) => text_less(entry.sk.as_str(), self.entries[b].sk.as_str()),
                };
                if better {
                    best = Some(i);
                }
            }
            i = i + 1;
        }
        assert(all.take(self.entries.len() as int) =~= all);
        best
    }

    /// The first `limit` rows of a partition key after `after`, by sort key.
    fn rows_after(&self, pk: &str, after: &str, limit: u32) -> (rows: Vec<Row>)
        ensures
            rows.deep_view() == rows_after(self@, pk@, after@, limit as nat),
    {
        let ghost all = self@;
        let mut rows: Vec<Row> = Vec::new();
        let mut from = String::from_str(after);
        let mut left: u32 = limit;
        let mut more = true;
        assert(rows.deep_view() =~= Seq::<RowView>::empty());
        while left > 0 && more
            invariant
                all == self@,
                rows.deep_view() + rows_after(all, pk@, from@, left as nat) =~= rows_after(
                    all,
                    pk@,
                    after@,
                    limit as nat,
                ),
                !more ==> rows_after(all, pk@, from@, left as nat) =~= Seq::<RowView>::empty(),
            decreases
                    left + if more {
                        1int
                    } else {
                        0int
                    },
        {
            match self.least_after(pk, from.as_str()) {
                Some(place) => {
                    let ghost had = rows.deep_view();
                    let ghost e = all[place as int];
                    let ghost rest = rows_after(all, pk@, e.sk, (left - 1) as nat);
                    assert(rows_after(all, pk@, from@, left as nat) == seq![e.row] + rest);
                    rows.push(self.entries[place].row.clone());
                    assert(rows.deep_view() =~= had.push(e.row));
                    from = self.entries[place].sk.clone();
                    left = left - 1;
                    assert(rows.deep_view() + rest =~= had + (seq![e.row] + rest));
                },
                None => {
                    more = false;
                },
            }
        }
        assert(rows.deep_view() + Seq::<RowView>::empty() =~= rows.deep_view());
        rows
    }

    /// The rows of a partition key whose sort key begins with `prefix`.
    fn rows_with_prefix(&self, pk: &str, prefix: &str) -> (rows: Vec<Row>)
        ensures
            rows.deep_view() == rows_with_prefix(self@, pk@, prefix@),
    {
        let ghost all = self@;
        let ghost wanted = |e: Entry| e.pk == pk@ && has_prefix(e.sk, prefix@);
        let ghost row_of = |e: Entry| e.row;
        let mut rows: Vec<Row> = Vec::new();
        let mut i: usize = 0;
        assert(all.take(0).filter(wanted).map_values(row_of) =~= Seq::<RowView>::empty()) by {
            reveal(Seq::filter);
        }
        while i < self.entries.len()
            invariant
                0 <= i <= self.entries.len(),
                all == self.entries.deep_view(),
                wanted == |e: Entry| e.pk == pk@ && has_prefix(e.sk, prefix@),
                row_of == |e: Entry| e.row,
                rows.deep_view() =~= all.take(i as int).filter(wanted).map_values(row_of),
            decreases self.entries.len() - i,
        {
            let ghost part = all.take(i + 1);
            assert(part.drop_last() =~= all.take(i as int));
            assert(part.last() == self.entries[i as int].deep_view());
            assert(part.filter(wanted) == if wanted(part.last()) {
                part.drop_last().filter(wanted).push(part.last())
            } else {
                part.drop_last().filter(wanted)
            }) by {
                reveal(Seq::filter);
            }
            let entry = &self.entries[i];
            if same_text(entry.pk.as_str(), pk) && starts_with(entry.sk.as_str(), prefix) {
                let ghost had = rows.deep_view();
                rows.push(entry.row.clone());
                assert(rows.deep_view() =~= had.push(part.last().row));
                assert(part.drop_last().filter(wanted).push(part.last()).map_values(row_of)
                    =~= part.drop_last().filter(wanted).map_values(row_of).push(part.last().row));
            }
            i = i + 1;
        }
        assert(all.take(self.entries.len() as int) =~= all);
        rows
    }

    /// The metadata rows of all streams.
    fn stream_rows(&self) -> (rows: Vec<Row>)
        ensures
            rows.deep_view() == stream_rows(self@),
    {
        let ghost all = self@;
        let ghost wanted = |e: Entry| has_prefix(e.pk, "STREAM#"@) && e.sk == meta_sk();
        let ghost row_of = |e: Entry| e.row;
        let mut rows: Vec<Row> = Vec::new();
        let mut i: usize = 0;
        assert(all.take(0).filter(wanted).map_values(row_of) =~= Seq::<RowView>::empty()) by {
            reveal(Seq::filter);
        }
        while i < self.entries.len()
            invariant
                0 <= i <= self.entries.len(),
                all == self.entries.deep_view(),
                wanted == |e: Entry| has_prefix(e.pk, "STREAM#"@) && e.sk == meta_sk(),
                row_of == |e: Entry| e.row,
                rows.deep_view() =~= all.take(i as int).filter(wanted).map_values(row_of),
            decreases self.entries.len() - i,
        {
            let ghost part = all.take(i + 1);
            assert(part.drop_last() =~= all.take(i as int));
            assert(part.last() == self.entries[i as int].deep_view());
            assert(part.filter(wanted) == if wanted(part.last()) {
                part.drop_last().filter(wanted).push(part.last())
            } else {
                part.drop_last().filter(wanted)
            }) by {
                reveal(Seq::filter);
            }
            let entry = &self.entries[i];
            if starts_with(entry.pk.as_str(), "STREAM#") && same_text(entry.sk.as_str(), "META") {
                let ghost had = rows.deep_view();
                rows.push(entry.row.clone());
                assert(rows.deep_view() =~= had.push(part.last().row));
                assert(part.drop_last().filter(wanted).push(part.last()).map_values(row_of)
                    =~= part.drop_last().filter(wanted).map_values(row_of).push(part.last().row));
            }
            i = i + 1;
        }
        assert(all.take(self.entries.len() as int) =~= all);
        rows
    }

    /// Answers a request, as the model says a table does.
    pub fn answer(&mut self, request: StoreRequest) -> (reply: StoreReply)
        ensures
            (final(self)@, reply@) == answer(old(self)@, request@),
    {
        match request {
            StoreRequest::Get { pk, sk } => StoreReply::Item(self.get(pk.as_str(), sk.as_str())),
            StoreRequest::Put { pk, sk, row } => {
                self.put(pk, sk, row);
                StoreReply::Done
            },
            StoreRequest::PutIfAbsent { pk, sk, row } => {
                match self.get(pk.as_str(), sk.as_str()) {
                    Some(_) => StoreReply::ConditionFailed,
                    None => {
                        self.put(pk, sk, row);
                        StoreReply::Done
                    },
                }
            },
            StoreRequest::Delete { pk, sk } => {
                self.remove(pk.as_str(), sk.as_str());
                StoreReply::Done
            },
            StoreRequest::Increment { pk, sk } => {
                match self.get(pk.as_str(), sk.as_str()) {
                    Some(Row::Counter(n)) => {
                        if n < u64::MAX {
                            self.put(pk, sk, Row::Counter(n + 1));
                            StoreReply::Item(Some(Row::Counter(n + 1)))
                        } else {
                            StoreReply::Item(None)
                        }
                    },
                    _ => StoreReply::Item(None),
                }
            },
            StoreRequest::QueryAfter { pk, after, limit } => StoreReply::Rows(
                self.rows_after(pk.as_str(), after.as_str(), limit),
            ),
            StoreRequest::QueryPrefix { pk, prefix } => StoreReply::Rows(
                self.rows_with_prefix(pk.as_str(), prefix.as_str()),
            ),
            StoreRequest::ScanStreams => StoreReply::Rows(self.stream_rows()),
        }
    }
}

} // verus!
