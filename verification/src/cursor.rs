//! Cursors: what a poll hands out and a commit takes back.
//!
//! A cursor names, for each partition, the sequence number up to which the
//! poll has read. On the wire it is JSON of the form
//! `{"offsets":[{"partition":0,"offset":5}]}`, written in base64 with the
//! URL-safe alphabet and without padding. Clients treat it as opaque.

use crate::errors::{Error, ErrorView};
use crate::models::{CursorState, PartitionOffset};
use crate::text::{decimal, find_member, member_of, names_of, push_decimal};
use base64::engine::general_purpose::URL_SAFE_NO_PAD;
use base64::Engine;
use std::collections::BTreeMap;
use vstd::prelude::*;
use vstd::string::{StringExecFns, StringSliceAdditionalSpecFns};
use vstd::utf8::{decode_utf8, encode_utf8, valid_utf8};

verus! {

/// The base64 text of a byte string: URL-safe alphabet, no padding.
pub uninterp spec fn base64url(data: Seq<u8>) -> Seq<char>;

/// The bytes that a base64 text stands for, if it is well formed: URL-safe
/// alphabet, no padding.
pub uninterp spec fn base64url_bytes(text: Seq<char>) -> Option<Seq<u8>>;

/// What a JSON text holds when it is read as an object whose members are
/// lists of objects of unsigned 64-bit numbers; `None` where it is no such
/// text.
pub uninterp spec fn cursor_json_fields(text: Seq<char>) -> Option<
    Seq<(Seq<char>, Seq<Seq<(Seq<char>, u64)>>)>,
>;

/// The JSON text of one partition's offset.
pub open spec fn offset_json(entry: PartitionOffset) -> Seq<char> {
    "{\"partition\":"@ + decimal(entry.partition as nat) + ",\"offset\":"@ + decimal(
        entry.offset as nat,
    ) + "}"@
}

/// The JSON texts of the offsets, with commas between them.
pub open spec fn offsets_json(offsets: Seq<PartitionOffset>) -> Seq<char>
    decreases offsets.len(),
{
    if offsets.len() == 0 {
        Seq::empty()
    } else if offsets.len() == 1 {
        offset_json(offsets[0])
    } else {
        offsets_json(offsets.drop_last()) + ","@ + offset_json(offsets.last())
    }
}

/// The JSON text of a cursor.
pub open spec fn cursor_json(offsets: Seq<PartitionOffset>) -> Seq<char> {
    "{\"offsets\":["@ + offsets_json(offsets) + "]}"@
}

/// The cursor string for the given offsets.
pub open spec fn cursor_text(offsets: Seq<PartitionOffset>) -> Seq<char> {
    base64url(encode_utf8(cursor_json(offsets)))
}

/// The offset that one object of a cursor spells: its members `partition`,
/// which must fit 32 bits, and `offset`. Other members are passed over.
pub open spec fn offset_of_members(members: Seq<(Seq<char>, u64)>) -> Option<PartitionOffset> {
    match (member_of(members, "partition"@), member_of(members, "offset"@)) {
        (Some(partition), Some(offset)) => {
            if partition <= u32::MAX {
                Some(PartitionOffset { partition: partition as u32, offset })
            } else {
                None
            }
        },
        _ => None,
    }
}

/// The offsets that a list of objects spells, if each of them spells one.
pub open spec fn offsets_of_items(items: Seq<Seq<(Seq<char>, u64)>>) -> Option<
    Seq<PartitionOffset>,
>
    decreases items.len(),
{
    if items.len() == 0 {
        Some(Seq::empty())
    } else {
        match (offsets_of_items(items.drop_last()), offset_of_members(items.last())) {
            (Some(before), Some(entry)) => Some(before.push(entry)),
            _ => None,
        }
    }
}

/// The offsets that the members of a cursor's JSON object spell: those of its
/// member `offsets`.
pub open spec fn offsets_of_fields(
    fields: Seq<(Seq<char>, Seq<Seq<(Seq<char>, u64)>>)>,
) -> Option<Seq<PartitionOffset>> {
    match member_of(fields, "offsets"@) {
        Some(items) => offsets_of_items(items),
        None => None,
    }
}

/// What a cursor string decodes to: its offsets, or the reason why it is no
/// cursor.
pub open spec fn decoded_cursor(cursor: Seq<char>) -> Result<Seq<PartitionOffset>, ErrorView> {
    match base64url_bytes(cursor) {
        None => Err(ErrorView::InvalidCursor("Invalid base64"@)),
        Some(bytes) => {
            if !valid_utf8(bytes) {
                Err(ErrorView::InvalidCursor("Invalid UTF-8"@))
            } else {
                match cursor_json_fields(decode_utf8(bytes)) {
                    None => Err(ErrorView::InvalidCursor("Invalid JSON"@)),
                    Some(fields) => match offsets_of_fields(fields) {
                        None => Err(ErrorView::InvalidCursor("Invalid JSON"@)),
                        Some(offsets) => Ok(offsets),
                    },
                }
            }
        },
    }
}

/// `base64::Engine::encode` of `URL_SAFE_NO_PAD`: the base64 text of `data`.
/// The call does not return where the length of the text would not fit the
/// machine's word, which the bound on `data` rules out.
#[verifier::external_body]
fn base64url_encode(data: &[u8]) -> (text: String)
    requires
        data@.len() <= usize::MAX / 2,
    ensures
        text@ == base64url(data@),
{
    URL_SAFE_NO_PAD.encode(data)
}

/// `base64::Engine::decode` of `URL_SAFE_NO_PAD`: the bytes that `text`
/// stands for, or `None` where it is not base64 of that form.
#[verifier::external_body]
fn base64url_decode(text: &str) -> (data: Option<Vec<u8>>)
    ensures
        match data {
            Some(bytes) => base64url_bytes(text@) == Some(bytes@),
            None => base64url_bytes(text@) is None,
        },
{
    URL_SAFE_NO_PAD.decode(text).ok()
}

/// `String::from_utf8`: the text that the bytes encode, or `None` where they
/// are not UTF-8.
#[verifier::external_body]
fn text_of_utf8(bytes: Vec<u8>) -> (text: Option<String>)
    ensures
        match text {
            Some(t) => valid_utf8(bytes@) && t@ == decode_utf8(bytes@),
            None => !valid_utf8(bytes@),
        },
{
    String::from_utf8(bytes).ok()
}

/// `serde_json::from_str`, reading an object whose members are lists of
/// objects of unsigned 64-bit numbers; `None` where the text is not JSON of
/// that shape. The same text always reads the same.
#[verifier::external_body]
fn parse_cursor_json(text: &str) -> (fields: Option<Vec<(String, Vec<Vec<(String, u64)>>)>>)
    ensures
        fields.deep_view() == cursor_json_fields(text@),
{
    let parsed: Result<BTreeMap<String, Vec<BTreeMap<String, u64>>>, serde_json::Error> =
        serde_json::from_str(text);
    match parsed {
        Ok(members) => Some(
            members
                .into_iter()
                .map(|(name, items)| (name, items.into_iter().map(Vec::from_iter).collect()))
                .collect(),
        ),
        Err(_) => None,
    }
}

/// Appends the JSON text of one partition's offset.
fn push_offset_json(out: &mut String, entry: &PartitionOffset)
    ensures
        final(out)@ == old(out)@ + offset_json(*entry),
{
    out.append("{\"partition\":");
    push_decimal(out, entry.partition as u64);
    out.append(",\"offset\":");
    push_decimal(out, entry.offset);
    out.append("}");
    assert(out@ =~= old(out)@ + offset_json(*entry));
}

/// Writes the JSON text of a cursor.
pub fn write_cursor_json(offsets: &Vec<PartitionOffset>) -> (text: String)
    ensures
        text@ == cursor_json(offsets@),
{
    let mut text = String::from_str("{\"offsets\":[");
    let mut i: usize = 0;
    while i < offsets.len()
        invariant
            0 <= i <= offsets.len(),
            text@ == "{\"offsets\":["@ + offsets_json(offsets@.take(i as int)),
        decreases offsets.len() - i,
    {
        let ghost before = offsets@.take(i as int);
        let ghost now = offsets@.take(i + 1);
        assert(now.drop_last() =~= before);
        assert(now.last() == offsets@[i as int]);
        if i > 0 {
            text.append(",");
        }
        push_offset_json(&mut text, &offsets[i]);
        assert(text@ =~= "{\"offsets\":["@ + offsets_json(now)) by {
            if i == 0 {
                assert(offsets_json(before) =~= Seq::<char>::empty());
                assert(now[0] == offsets@[i as int]);
            }
        }
        i = i + 1;
    }
    assert(offsets@.take(offsets.len() as int) =~= offsets@);
    text.append("]}");
    text
}

/// Encodes the offsets of a poll as a cursor string. Gives `None` only where
/// the cursor's JSON text is longer than half the address space.
pub fn encode_cursor(state: &CursorState) -> (cursor: Option<String>)
    ensures
        match cursor {
            Some(c) => c@ == cursor_text(state.offsets@) && encode_utf8(
                cursor_json(state.offsets@),
            ).len() <= usize::MAX / 2,
            None => encode_utf8(cursor_json(state.offsets@)).len() > usize::MAX / 2,
        },
{
    let json = write_cursor_json(&state.offsets);
    let bytes = json.as_str().as_bytes();
    if bytes.len() > usize::MAX / 2 {
        None
    } else {
        Some(base64url_encode(bytes))
    }
}

/// Reads one object of a cursor: its `partition` and its `offset`.
fn offset_from_members(members: &Vec<(String, u64)>) -> (entry: Option<PartitionOffset>)
    ensures
        entry == offset_of_members(members.deep_view()),
{
    let ghost shown = members.deep_view();
    assert(shown.map_values(|m: (Seq<char>, u64)| m.0) =~= names_of(members@));
    let p = find_member(members, "partition");
    let o = find_member(members, "offset");
    match (p, o) {
        (Some(i), Some(j)) => {
            let partition: u64 = members[i].1;
            let offset: u64 = members[j].1;
            assert(shown[i as int].1 == partition);
            assert(shown[j as int].1 == offset);
            if partition <= 0xffff_ffff {
                Some(PartitionOffset { partition: partition as u32, offset })
            } else {
                None
            }
        },
        _ => None,
    }
}

/// Reads the offsets out of the members of a cursor's JSON object: the
/// objects listed under `offsets`, each with a `partition` that fits 32 bits
/// and an `offset`. Gives `None` where `offsets` is missing or one of its
/// objects lacks either number.
pub fn offsets_from_fields(fields: &Vec<(String, Vec<Vec<(String, u64)>>)>) -> (offsets: Option<
    Vec<PartitionOffset>,
>)
    ensures
        match offsets_of_fields(fields.deep_view()) {
            Some(spelled) => offsets is Some && offsets->0@ == spelled,
            None => offsets is None,
        },
{
    let ghost shown = fields.deep_view();
    assert(shown.map_values(|m: (Seq<char>, Seq<Seq<(Seq<char>, u64)>>)| m.0) =~= names_of(
        fields@,
    ));
    match find_member(fields, "offsets") {
        None => None,
        Some(at) => {
            let items = &fields[at].1;
            let ghost listed = shown[at as int].1;
            assert(listed == items.deep_view());
            let mut offsets: Vec<PartitionOffset> = Vec::new();
            let mut i: usize = 0;
            while i < items.len()
                invariant
                    0 <= i <= items.len(),
                    listed == items.deep_view(),
                    offsets_of_fields(fields.deep_view()) == offsets_of_items(listed),
                    offsets_of_items(listed.take(i as int)) == Some(offsets@),
                decreases items.len() - i,
            {
                let ghost upto = listed.take(i + 1);
                assert(upto.drop_last() =~= listed.take(i as int));
                assert(upto.last() == items[i as int].deep_view());
                match offset_from_members(&items[i]) {
                    Some(entry) => {
                        offsets.push(entry);
                    },
                    None => {
                        proof {
                            lemma_offsets_of_items_prefix(listed, i + 1);
                        }
                        return None;
                    },
                }
                i = i + 1;
            }
            assert(listed.take(items.len() as int) =~= listed);
            Some(offsets)
        },
    }
}

/// Where the first objects of a list do not all spell offsets, the whole list
/// does not either.
pub proof fn lemma_offsets_of_items_prefix(items: Seq<Seq<(Seq<char>, u64)>>, k: int)
    requires
        0 <= k <= items.len(),
        offsets_of_items(items.take(k)) is None,
    ensures
        offsets_of_items(items) is None,
    decreases items.len() - k,
{
    if k < items.len() {
        assert(items.take(k + 1).drop_last() =~= items.take(k));
        lemma_offsets_of_items_prefix(items, k + 1);
    } else {
        assert(items.take(k) =~= items);
    }
}

/// Decodes a cursor string into the offsets it carries. Any text that is not
/// a cursor gives `InvalidCursor`, with the step that failed.
pub fn decode_cursor(cursor: &str) -> (state: Result<CursorState, Error>)
    ensures
        match decoded_cursor(cursor@) {
            Ok(offsets) => state is Ok && state->Ok_0.offsets@ == offsets,
            Err(error) => state is Err && state->Err_0@ == error,
        },
{
    let bytes = match base64url_decode(cursor) {
        Some(bytes) => bytes,
        None => {
            return Err(Error::InvalidCursor(String::from_str("Invalid base64")));
        },
    };
    let json = match text_of_utf8(bytes) {
        Some(json) => json,
        None => {
            return Err(Error::InvalidCursor(String::from_str("Invalid UTF-8")));
        },
    };
    let fields = match parse_cursor_json(json.as_str()) {
        Some(fields) => fields,
        None => {
            return Err(Error::InvalidCursor(String::from_str("Invalid JSON")));
        },
    };
    match offsets_from_fields(&fields) {
        Some(offsets) => Ok(CursorState { offsets }),
        None => Err(Error::InvalidCursor(String::from_str("Invalid JSON"))),
    }
}

} // verus!
