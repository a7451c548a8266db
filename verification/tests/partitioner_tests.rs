use eventledger_core::partitioner::partition_for_digest;
use eventledger_core::Partitioner;
use std::collections::HashMap;

#[test]
fn test_consistent_partitioning() {
    let partitioner = Partitioner::new(3);

    // Same key should always return same partition
    let key = "order-123";
    let partition = partitioner.partition(key);

    for _ in 0..100 {
        assert_eq!(partitioner.partition(key), partition);
    }
}

#[test]
fn test_partition_range() {
    let partitioner = Partitioner::new(5);

    // All partitions should be within range
    let keys = ["a", "b", "c", "d", "e", "order-1", "order-2", "user-abc"];
    for key in keys {
        let partition = partitioner.partition(key);
        assert!(partition < 5, "Partition {} out of range for key {}", partition, key);
    }
}

#[test]
fn test_distribution() {
    let partitioner = Partitioner::new(4);
    let mut counts: HashMap<u32, u32> = HashMap::new();

    // Generate many keys and check distribution
    for i in 0..10000 {
        let key = format!("key-{}", i);
        let partition = partitioner.partition(&key);
        *counts.entry(partition).or_insert(0) += 1;
    }

    // Each partition should have roughly 25% (allow 20-30%)
    for partition in 0..4 {
        let count = counts.get(&partition).unwrap_or(&0);
        let percentage = (*count as f64 / 10000.0) * 100.0;
        assert!(
            percentage > 20.0 && percentage < 30.0,
            "Partition {} has {}% which is outside expected range",
            partition,
            percentage
        );
    }
}

#[test]
fn test_different_keys_can_map_to_same_partition() {
    let partitioner = Partitioner::new(2);

    // With only 2 partitions, many keys will collide
    let mut found_collision = false;
    let base_partition = partitioner.partition("key-0");

    for i in 1..100 {
        let key = format!("key-{}", i);
        if partitioner.partition(&key) == base_partition {
            found_collision = true;
            break;
        }
    }

    assert!(found_collision, "Expected to find partition collision");
}

#[test]
fn partition_is_digest_prefix_modulo_count() {
    // SHA-256 of "hello world" begins with b9 4d 27 b9, which is 3108841401.
    assert_eq!(Partitioner::new(1000).partition("hello world"), 401);
    assert_eq!(Partitioner::new(3).partition("hello world"), 0);
    assert_eq!(Partitioner::new(10).partition("abc"), 9);
    assert_eq!(Partitioner::new(3).partition("order-123"), 2);
    assert_eq!(Partitioner::new(4).partition(""), 2);
}

#[test]
fn partition_of_a_given_digest() {
    let mut digest = [0u8; 32];
    digest[0] = 0xb9;
    digest[1] = 0x4d;
    digest[2] = 0x27;
    digest[3] = 0xb9;
    digest[4] = 0xff;
    assert_eq!(partition_for_digest(&digest, 1000), 401);
    assert_eq!(partition_for_digest(&digest, u32::MAX), 3108841401);
    let all_ones = [0xffu8; 32];
    assert_eq!(partition_for_digest(&all_ones, u32::MAX), 0);
    assert_eq!(partition_for_digest(&all_ones, 1), 0);
}

#[test]
fn single_partition_takes_every_key() {
    let partitioner = Partitioner::new(1);
    for key in ["a", "b", "order-1", ""] {
        assert_eq!(partitioner.partition(key), 0);
    }
    assert_eq!(partitioner.partition_count(), 1);
}
