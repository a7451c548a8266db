use eventledger_core::keys::{
    classify_sort_key, compacted_partition_key, compacted_sort_key, counter_sort_key, meta_sort_key,
    offset_sort_key, offsets_key, partition_key, sequence_sort_key, stream_key,
    subscription_sort_key, RowKind,
};
use eventledger_core::text::{
    find_member, parse_u32, parse_u64, push_decimal, push_padded20, same_text, starts_with,
};

#[test]
fn keys_follow_the_table_layout() {
    assert_eq!(stream_key("orders"), "STREAM#orders");
    assert_eq!(partition_key("orders", 0), "STREAM#orders#P0");
    assert_eq!(partition_key("orders", 12), "STREAM#orders#P12");
    assert_eq!(partition_key("orders", u32::MAX), "STREAM#orders#P4294967295");
    assert_eq!(offsets_key("orders", "s1"), "STREAM#orders#SUB#s1");
    assert_eq!(compacted_partition_key("orders"), "STREAM#orders#COMPACT");
    assert_eq!(meta_sort_key(), "META");
    assert_eq!(counter_sort_key(), "COUNTER");
    assert_eq!(subscription_sort_key("s1"), "SUB#s1");
    assert_eq!(sequence_sort_key(0), "SEQ#00000000000000000000");
    assert_eq!(sequence_sort_key(5), "SEQ#00000000000000000005");
    assert_eq!(sequence_sort_key(1234567890), "SEQ#00000000001234567890");
    assert_eq!(sequence_sort_key(u64::MAX), "SEQ#18446744073709551615");
    assert_eq!(offset_sort_key(7), "OFFSET#P7");
    assert_eq!(compacted_sort_key("order-1"), "KEY#order-1");
    assert_eq!(compacted_sort_key("clé"), "KEY#clé");
}

#[test]
fn sequence_keys_sort_as_their_numbers() {
    let numbers: Vec<u64> = vec![0, 1, 2, 9, 10, 11, 99, 100, 1000, 99999, 100000, u64::MAX - 1, u64::MAX];
    for a in &numbers {
        for b in &numbers {
            assert_eq!(sequence_sort_key(*a) < sequence_sort_key(*b), a < b);
            assert_eq!(sequence_sort_key(*a) == sequence_sort_key(*b), a == b);
        }
    }
}

#[test]
fn sort_keys_tell_the_kind_of_row() {
    assert_eq!(classify_sort_key("META"), Some(RowKind::StreamMeta));
    assert_eq!(classify_sort_key("COUNTER"), Some(RowKind::Counter));
    assert_eq!(classify_sort_key("SEQ#00000000000000000001"), Some(RowKind::Event));
    assert_eq!(classify_sort_key("SUB#s1"), Some(RowKind::Subscription));
    assert_eq!(classify_sort_key("OFFSET#P3"), Some(RowKind::Offset));
    assert_eq!(classify_sort_key("KEY#k"), Some(RowKind::Compacted));
    assert_eq!(classify_sort_key("META2"), None);
    assert_eq!(classify_sort_key("OFFSET#"), None);
    assert_eq!(classify_sort_key(""), None);
    assert_eq!(classify_sort_key("seq#1"), None);
}

#[test]
fn decimal_text_is_written_without_leading_zeros() {
    let mut out = String::from("n=");
    push_decimal(&mut out, 0);
    out.push(' ');
    push_decimal(&mut out, 7);
    out.push(' ');
    push_decimal(&mut out, 10);
    out.push(' ');
    push_decimal(&mut out, 18446744073709551615);
    assert_eq!(out, "n=0 7 10 18446744073709551615");
    let mut padded = String::new();
    push_padded20(&mut padded, 42);
    assert_eq!(padded, "00000000000000000042");
}

#[test]
fn numbers_are_read_as_the_standard_library_reads_them() {
    let texts = [
        "0", "1", "007", "+5", "+", "", "-1", "1.0", "1e3", " 1", "1 ", "12a", "４２", "é",
        "18446744073709551615", "18446744073709551616", "99999999999999999999999",
        "000000000000000000000000000000012", "4294967295", "4294967296", "+0", "++1", "1+",
    ];
    for text in texts {
        assert_eq!(parse_u64(text), text.parse::<u64>().ok(), "u64 of {:?}", text);
        assert_eq!(parse_u32(text), text.parse::<u32>().ok(), "u32 of {:?}", text);
    }
    assert_eq!(parse_u64("18446744073709551615"), Some(u64::MAX));
    assert_eq!(parse_u64("18446744073709551616"), None);
    assert_eq!(parse_u32("4294967295"), Some(u32::MAX));
    assert_eq!(parse_u32("4294967296"), None);
}

#[test]
fn prefixes_and_equality_of_texts() {
    assert!(starts_with("SEQ#1", "SEQ#"));
    assert!(starts_with("SEQ#", "SEQ#"));
    assert!(starts_with("anything", ""));
    assert!(!starts_with("SEQ", "SEQ#"));
    assert!(!starts_with("sEQ#1", "SEQ#"));
    assert!(starts_with("éa", "é"));
    assert!(!starts_with("ea", "é"));
    assert!(same_text("abc", "abc"));
    assert!(!same_text("abc", "abd"));
    assert!(!same_text("abc", "ab"));
    assert!(same_text("", ""));
}

#[test]
fn the_first_member_of_a_name_is_found() {
    let members: Vec<(String, u32)> =
        vec![("a".into(), 1), ("b".into(), 2), ("a".into(), 3), ("".into(), 4)];
    assert_eq!(find_member(&members, "a"), Some(0));
    assert_eq!(find_member(&members, "b"), Some(1));
    assert_eq!(find_member(&members, ""), Some(3));
    assert_eq!(find_member(&members, "c"), None);
    let none: Vec<(String, u32)> = Vec::new();
    assert_eq!(find_member(&none, "a"), None);
}
