//! The keys of the table's rows.
//!
//! Every row is found by a partition key and a sort key, both strings:
//!
//! | row               | partition key             | sort key          |
//! |-------------------|---------------------------|-------------------|
//! | stream metadata   | `STREAM#<id>`             | `META`            |
//! | subscription      | `STREAM#<id>`             | `SUB#<sub>`       |
//! | partition counter | `STREAM#<id>#P<n>`        | `COUNTER`         |
//! | event             | `STREAM#<id>#P<n>`        | `SEQ#<20 digits>` |
//! | consumer offset   | `STREAM#<id>#SUB#<sub>`   | `OFFSET#P<n>`     |
//! | compacted state   | `STREAM#<id>#COMPACT`     | `KEY#<key>`       |

use crate::text::{
    decimal, has_prefix, lemma_decimal_injective, lemma_lex_less_common_prefix,
    lemma_padded_injective, lemma_padded_order, lemma_u64_fits_twenty_digits, lex_less, padded,
    push_decimal, push_padded20, same_text, starts_with,
};
use vstd::prelude::*;
use vstd::string::StringExecFns;

verus! {

/// The partition key of a stream's metadata and subscriptions.
pub open spec fn stream_pk(stream_id: Seq<char>) -> Seq<char> {
    "STREAM#"@ + stream_id
}

/// The partition key of one partition's counter and events.
pub open spec fn partition_pk(stream_id: Seq<char>, partition: u32) -> Seq<char> {
    "STREAM#"@ + stream_id + "#P"@ + decimal(partition as nat)
}

/// The partition key of a subscription's offsets.
pub open spec fn offsets_pk(stream_id: Seq<char>, subscription_id: Seq<char>) -> Seq<char> {
    "STREAM#"@ + stream_id + "#SUB#"@ + subscription_id
}

/// The partition key of a stream's compacted state.
pub open spec fn compacted_pk(stream_id: Seq<char>) -> Seq<char> {
    "STREAM#"@ + stream_id + "#COMPACT"@
}

/// The sort key of stream metadata.
pub open spec fn meta_sk() -> Seq<char> {
    "META"@
}

/// The sort key of a partition's counter.
pub open spec fn counter_sk() -> Seq<char> {
    "COUNTER"@
}

/// The sort key of a subscription.
pub open spec fn subscription_sk(subscription_id: Seq<char>) -> Seq<char> {
    "SUB#"@ + subscription_id
}

/// The sort key of the event with the given sequence number.
pub open spec fn sequence_sk(sequence: u64) -> Seq<char> {
    "SEQ#"@ + padded(sequence as nat, 20)
}

/// The sort key of a subscription's offset in one partition.
pub open spec fn offset_sk(partition: u32) -> Seq<char> {
    "OFFSET#P"@ + decimal(partition as nat)
}

/// The sort key of the compacted state of one event key.
pub open spec fn compacted_sk(key: Seq<char>) -> Seq<char> {
    "KEY#"@ + key
}

/// What a row holds, as far as its sort key tells.
#[derive(Debug, Clone, Copy, PartialEq, Eq, Structural)]
pub enum RowKind {
    StreamMeta,
    Subscription,
    Counter,
    Event,
    Offset,
    Compacted,
}

/// The kind of row that a sort key stands for, if any.
pub open spec fn kind_of_sort_key(sk: Seq<char>) -> Option<RowKind> {
    if sk == meta_sk() {
        Some(RowKind::StreamMeta)
    } else if sk == counter_sk() {
        Some(RowKind::Counter)
    } else if has_prefix(sk, "SEQ#"@) {
        Some(RowKind::Event)
    } else if has_prefix(sk, "SUB#"@) {
        Some(RowKind::Subscription)
    } else if has_prefix(sk, "OFFSET#P"@) {
        Some(RowKind::Offset)
    } else if has_prefix(sk, "KEY#"@) {
        Some(RowKind::Compacted)
    } else {
        None
    }
}

/// Two texts with the same beginning are equal only if the rest is equal.
pub proof fn lemma_concat_cancel(p: Seq<char>, a: Seq<char>, b: Seq<char>)
    requires
        p + a == p + b,
    ensures
        a == b,
{
    assert(a =~= (p + a).skip(p.len() as int));
    assert(b =~= (p + b).skip(p.len() as int));
}

/// Sort keys of events are ordered as their sequence numbers are.
pub proof fn lemma_sequence_sk_order(a: u64, b: u64)
    ensures
        lex_less(sequence_sk(a), sequence_sk(b)) <==> a < b,
{
    lemma_u64_fits_twenty_digits(a);
    lemma_u64_fits_twenty_digits(b);
    lemma_padded_order(a as nat, b as nat, 20);
    lemma_lex_less_common_prefix("SEQ#"@, padded(a as nat, 20), padded(b as nat, 20));
}

/// Event uniqueness: events with different sequence numbers stand under
/// different sort keys, so a partition holds one event at most for each
/// sequence number.
pub proof fn law_sequence_sk_injective(a: u64, b: u64)
    requires
        sequence_sk(a) == sequence_sk(b),
    ensures
        a == b,
{
    lemma_u64_fits_twenty_digits(a);
    lemma_u64_fits_twenty_digits(b);
    lemma_concat_cancel("SEQ#"@, padded(a as nat, 20), padded(b as nat, 20));
    lemma_padded_injective(a as nat, b as nat, 20);
}

/// Different partitions have different offset sort keys.
pub proof fn lemma_offset_sk_injective(p: u32, q: u32)
    requires
        offset_sk(p) == offset_sk(q),
    ensures
        p == q,
{
    lemma_concat_cancel("OFFSET#P"@, decimal(p as nat), decimal(q as nat));
    lemma_decimal_injective(p as nat, q as nat);
}

/// Different partitions of one stream have different partition keys.
pub proof fn lemma_partition_pk_injective(stream_id: Seq<char>, p: u32, q: u32)
    requires
        partition_pk(stream_id, p) == partition_pk(stream_id, q),
    ensures
        p == q,
{
    lemma_concat_cancel("STREAM#"@ + stream_id + "#P"@, decimal(p as nat), decimal(q as nat));
    lemma_decimal_injective(p as nat, q as nat);
}

/// The partition key of a partition tells the stream and the partition.
pub proof fn lemma_partition_pk_tells(a: Seq<char>, p: u32, b: Seq<char>, q: u32)
    requires
        partition_pk(a, p) == partition_pk(b, q),
    ensures
        a == b,
        p == q,
{
    reveal_strlit("#P");
    let dp = decimal(p as nat);
    let dq = decimal(q as nat);
    crate::text::lemma_decimal_digits(p as nat);
    crate::text::lemma_decimal_digits(q as nat);
    let s = a + "#P"@ + dp;
    let t = b + "#P"@ + dq;
    assert("STREAM#"@ + s =~= partition_pk(a, p));
    assert("STREAM#"@ + t =~= partition_pk(b, q));
    lemma_concat_cancel("STREAM#"@, s, t);
    // The last `#` of the text ends the stream id, in both readings.
    assert(s[a.len() as int] == '#');
    assert(t[b.len() as int] == '#');
    if a.len() < b.len() {
        let k = b.len() - a.len();
        if k == 1 {
            assert(s[b.len() as int] == 'P');
        } else {
            assert(s[b.len() as int] == dp[k - 2]);
            assert(crate::text::is_digit(dp[k - 2]));
        }
    }
    if b.len() < a.len() {
        let k = a.len() - b.len();
        if k == 1 {
            assert(t[a.len() as int] == 'P');
        } else {
            assert(t[a.len() as int] == dq[k - 2]);
            assert(crate::text::is_digit(dq[k - 2]));
        }
    }
    assert(a.len() == b.len());
    assert(a =~= s.take(a.len() as int));
    assert(b =~= t.take(b.len() as int));
    assert(dp =~= s.skip(a.len() as int + 2));
    assert(dq =~= t.skip(b.len() as int + 2));
    lemma_decimal_injective(p as nat, q as nat);
}

/// The sort key of an event is that of no other kind of row.
pub proof fn lemma_sequence_sk_kind(sequence: u64)
    ensures
        kind_of_sort_key(sequence_sk(sequence)) == Some(RowKind::Event),
        sequence_sk(sequence) != counter_sk(),
        sequence_sk(sequence) != meta_sk(),
{
    reveal_strlit("SEQ#");
    reveal_strlit("META");
    reveal_strlit("COUNTER");
    let sk = sequence_sk(sequence);
    assert(sk.subrange(0, 4) =~= "SEQ#"@);
    assert(sk[0] == 'S');
    assert(meta_sk()[0] == 'M');
    assert(counter_sk()[0] == 'C');
}

/// The sort keys of metadata and of counters differ, and neither is that
/// of a subscription.
pub proof fn lemma_fixed_sk_kinds(subscription_id: Seq<char>)
    ensures
        meta_sk() != counter_sk(),
        subscription_sk(subscription_id) != meta_sk(),
        subscription_sk(subscription_id) != counter_sk(),
        kind_of_sort_key(meta_sk()) == Some(RowKind::StreamMeta),
        kind_of_sort_key(counter_sk()) == Some(RowKind::Counter),
{
    reveal_strlit("SUB#");
    reveal_strlit("META");
    reveal_strlit("COUNTER");
    assert(subscription_sk(subscription_id)[0] == 'S');
    assert(meta_sk()[0] == 'M');
    assert(counter_sk()[0] == 'C');
}

/// The sort key of an offset is that of no other kind of row.
pub proof fn lemma_offset_sk_kind(partition: u32, subscription_id: Seq<char>, sequence: u64)
    ensures
        offset_sk(partition) != meta_sk(),
        offset_sk(partition) != counter_sk(),
        offset_sk(partition) != subscription_sk(subscription_id),
        offset_sk(partition) != sequence_sk(sequence),
{
    reveal_strlit("OFFSET#P");
    reveal_strlit("SUB#");
    reveal_strlit("SEQ#");
    reveal_strlit("META");
    reveal_strlit("COUNTER");
    assert(offset_sk(partition)[0] == 'O');
    assert(subscription_sk(subscription_id)[0] == 'S');
    assert(sequence_sk(sequence)[0] == 'S');
    assert(meta_sk()[0] == 'M');
    assert(counter_sk()[0] == 'C');
}

/// Builds the partition key of a stream's metadata and subscriptions.
pub fn stream_key(stream_id: &str) -> (pk: String)
    ensures
        pk@ == stream_pk(stream_id@),
{
    let mut pk = String::from_str("STREAM#");
    pk.append(stream_id);
    pk
}

/// Builds the partition key of one partition's counter and events.
pub fn partition_key(stream_id: &str, partition: u32) -> (pk: String)
    ensures
        pk@ == partition_pk(stream_id@, partition),
{
    let mut pk = String::from_str("STREAM#");
    pk.append(stream_id);
    pk.append("#P");
    push_decimal(&mut pk, partition as u64);
    pk
}

/// Builds the partition key of a subscription's offsets.
pub fn offsets_key(stream_id: &str, subscription_id: &str) -> (pk: String)
    ensures
        pk@ == offsets_pk(stream_id@, subscription_id@),
{
    let mut pk = String::from_str("STREAM#");
    pk.append(stream_id);
    pk.append("#SUB#");
    pk.append(subscription_id);
    pk
}

/// Builds the partition key of a stream's compacted state.
pub fn compacted_partition_key(stream_id: &str) -> (pk: String)
    ensures
        pk@ == compacted_pk(stream_id@),
{
    let mut pk = String::from_str("STREAM#");
    pk.append(stream_id);
    pk.append("#COMPACT");
    pk
}

/// Builds the sort key of stream metadata.
pub fn meta_sort_key() -> (sk: String)
    ensures
        sk@ == meta_sk(),
{
    String::from_str("META")
}

/// Builds the sort key of a partition's counter.
pub fn counter_sort_key() -> (sk: String)
    ensures
        sk@ == counter_sk(),
{
    String::from_str("COUNTER")
}

/// Builds the sort key of a subscription.
pub fn subscription_sort_key(subscription_id: &str) -> (sk: String)
    ensures
        sk@ == subscription_sk(subscription_id@),
{
    let mut sk = String::from_str("SUB#");
    sk.append(subscription_id);
    sk
}

/// Builds the sort key of the event with the given sequence number.
pub fn sequence_sort_key(sequence: u64) -> (sk: String)
    ensures
        sk@ == sequence_sk(sequence),
{
    let mut sk = String::from_str("SEQ#");
    push_padded20(&mut sk, sequence);
    sk
}

/// Builds the sort key of a subscription's offset in one partition.
pub fn offset_sort_key(partition: u32) -> (sk: String)
    ensures
        sk@ == offset_sk(partition),
{
    let mut sk = String::from_str("OFFSET#P");
    push_decimal(&mut sk, partition as u64);
    sk
}

/// Builds the sort key of the compacted state of one event key.
pub fn compacted_sort_key(key: &str) -> (sk: String)
    ensures
        sk@ == compacted_sk(key@),
{
    let mut sk = String::from_str("KEY#");
    sk.append(key);
    sk
}

/// Tells from a sort key what kind of row it stands for.
pub fn classify_sort_key(sk: &str) -> (kind: Option<RowKind>)
    ensures
        kind == kind_of_sort_key(sk@),
{
    if same_text(sk, "META") {
        Some(RowKind::StreamMeta)
    } else if same_text(sk, "COUNTER") {
        Some(RowKind::Counter)
    } else if starts_with(sk, "SEQ#") {
        Some(RowKind::Event)
    } else if starts_with(sk, "SUB#") {
        Some(RowKind::Subscription)
    } else if starts_with(sk, "OFFSET#P") {
        Some(RowKind::Offset)
    } else if starts_with(sk, "KEY#") {
        Some(RowKind::Compacted)
    } else {
        None
    }
}

} // verus!
