use eventledger_core::cursor::{
    decode_cursor, encode_cursor, offsets_from_fields, write_cursor_json,
};
use eventledger_core::{CursorState, Error, PartitionOffset};

fn po(partition: u32, offset: u64) -> PartitionOffset {
    PartitionOffset { partition, offset }
}

#[test]
fn cursor_json_has_the_documented_form() {
    assert_eq!(write_cursor_json(&vec![]), r#"{"offsets":[]}"#);
    assert_eq!(write_cursor_json(&vec![po(0, 5)]), r#"{"offsets":[{"partition":0,"offset":5}]}"#);
    assert_eq!(
        write_cursor_json(&vec![po(0, 5), po(1, 0), po(2, u64::MAX)]),
        r#"{"offsets":[{"partition":0,"offset":5},{"partition":1,"offset":0},{"partition":2,"offset":18446744073709551615}]}"#
    );
}

#[test]
fn cursor_is_base64url_without_padding() {
    let one = CursorState { offsets: vec![po(0, 5)] };
    assert_eq!(
        encode_cursor(&one),
        Some("eyJvZmZzZXRzIjpbeyJwYXJ0aXRpb24iOjAsIm9mZnNldCI6NX1dfQ".to_string())
    );
    let none = CursorState { offsets: vec![] };
    assert_eq!(encode_cursor(&none), Some("eyJvZmZzZXRzIjpbXX0".to_string()));
    let three = CursorState { offsets: vec![po(0, 5), po(1, 0), po(2, u64::MAX)] };
    assert_eq!(
        encode_cursor(&three),
        Some(
            "eyJvZmZzZXRzIjpbeyJwYXJ0aXRpb24iOjAsIm9mZnNldCI6NX0seyJwYXJ0aXRpb24iOjEsIm9mZnNldCI6MH0seyJwYXJ0aXRpb24iOjIsIm9mZnNldCI6MTg0NDY3NDQwNzM3MDk1NTE2MTV9XX0"
                .to_string()
        )
    );
}

#[test]
fn cursor_round_trips() {
    let cases: Vec<Vec<PartitionOffset>> = vec![
        vec![],
        vec![po(0, 0)],
        vec![po(0, 5), po(1, 7), po(2, 0)],
        vec![po(u32::MAX, u64::MAX)],
        vec![po(3, 1), po(3, 2)],
    ];
    for offsets in cases {
        let state = CursorState { offsets };
        let cursor = encode_cursor(&state).unwrap();
        assert!(!cursor.contains('='));
        assert!(!cursor.contains('+'));
        assert!(!cursor.contains('/'));
        assert_eq!(decode_cursor(&cursor), Ok(state));
    }
}

#[test]
fn cursor_written_by_a_client_is_read() {
    // {"offsets": [{"offset": 7, "partition": 2}]} with spaces and another order of members.
    let cursor = "eyJvZmZzZXRzIjogW3sib2Zmc2V0IjogNywgInBhcnRpdGlvbiI6IDJ9XX0";
    assert_eq!(decode_cursor(cursor), Ok(CursorState { offsets: vec![po(2, 7)] }));
}

#[test]
fn text_that_is_no_cursor_is_refused() {
    // Not base64.
    assert_eq!(decode_cursor("***"), Err(Error::InvalidCursor("Invalid base64".into())));
    // Padding is not accepted.
    assert_eq!(
        decode_cursor("eyJvZmZzZXRzIjpbXX0="),
        Err(Error::InvalidCursor("Invalid base64".into()))
    );
    // The bytes ff fe are not UTF-8.
    assert_eq!(decode_cursor("__4"), Err(Error::InvalidCursor("Invalid UTF-8".into())));
    // "not json"
    assert_eq!(decode_cursor("bm90IGpzb24"), Err(Error::InvalidCursor("Invalid JSON".into())));
    // {"nothing":[]}
    assert_eq!(
        decode_cursor("eyJub3RoaW5nIjpbXX0"),
        Err(Error::InvalidCursor("Invalid JSON".into()))
    );
    // A partition of 4294967296 does not fit 32 bits.
    assert_eq!(
        decode_cursor("eyJvZmZzZXRzIjpbeyJwYXJ0aXRpb24iOjQyOTQ5NjcyOTYsIm9mZnNldCI6MX1dfQ"),
        Err(Error::InvalidCursor("Invalid JSON".into()))
    );
    // The empty text is base64 of no bytes, which is no JSON.
    assert_eq!(decode_cursor(""), Err(Error::InvalidCursor("Invalid JSON".into())));
}

#[test]
fn offsets_are_read_from_the_members_of_a_cursor() {
    let entry = |p: u64, o: u64| -> Vec<(String, u64)> {
        vec![("offset".to_string(), o), ("partition".to_string(), p)]
    };
    let fields = vec![
        ("extra".to_string(), vec![]),
        ("offsets".to_string(), vec![entry(0, 5), entry(1, 6)]),
    ];
    assert_eq!(offsets_from_fields(&fields), Some(vec![po(0, 5), po(1, 6)]));

    let missing: Vec<(String, Vec<Vec<(String, u64)>>)> = vec![("other".to_string(), vec![])];
    assert_eq!(offsets_from_fields(&missing), None);

    let no_offset = vec![("offsets".to_string(), vec![vec![("partition".to_string(), 1u64)]])];
    assert_eq!(offsets_from_fields(&no_offset), None);

    let no_partition = vec![("offsets".to_string(), vec![vec![("offset".to_string(), 1u64)]])];
    assert_eq!(offsets_from_fields(&no_partition), None);

    let too_wide = vec![("offsets".to_string(), vec![entry(4294967296, 1)])];
    assert_eq!(offsets_from_fields(&too_wide), None);

    let widest = vec![("offsets".to_string(), vec![entry(4294967295, u64::MAX)])];
    assert_eq!(offsets_from_fields(&widest), Some(vec![po(u32::MAX, u64::MAX)]));

    let second_bad = vec![("offsets".to_string(), vec![entry(0, 1), vec![]])];
    assert_eq!(offsets_from_fields(&second_bad), None);

    let empty = vec![("offsets".to_string(), vec![])];
    assert_eq!(offsets_from_fields(&empty), Some(vec![]));
}
