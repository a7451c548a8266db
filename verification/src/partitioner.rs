//! Mapping of event keys to partitions.
//!
//! A key always lands in the same partition of a stream: the partition is the
//! first four bytes of the key's SHA-256 digest, read as a big-endian number,
//! modulo the number of partitions.

use sha2::{Digest, Sha256};
use vstd::prelude::*;
use vstd::string::StringSliceAdditionalSpecFns;

verus! {

/// The SHA-256 digest of a byte string.
pub uninterp spec fn sha256(data: Seq<u8>) -> Seq<u8>;

/// The number that the first four bytes of a digest spell, most significant
/// byte first.
pub open spec fn digest_prefix(digest: Seq<u8>) -> int
    recommends
        digest.len() >= 4,
{
    digest[0] as int * 0x100_0000 + digest[1] as int * 0x1_0000 + digest[2] as int * 0x100
        + digest[3] as int
}

/// The partition that a digest selects among `partition_count` partitions.
pub open spec fn partition_of_digest(digest: Seq<u8>, partition_count: u32) -> int
    recommends
        digest.len() >= 4,
        partition_count > 0,
{
    digest_prefix(digest) % (partition_count as int)
}

/// The partition of a key: that of the digest of its UTF-8 bytes.
pub open spec fn partition_of_key(key: Seq<char>, partition_count: u32) -> int
    recommends
        partition_count > 0,
{
    partition_of_digest(sha256(vstd::utf8::encode_utf8(key)), partition_count)
}

/// `sha2::Sha256::digest`: the 32-byte SHA-256 digest of `data`. The digest is
/// not computed in the proofs; it is only known to be a function of `data`.
#[verifier::external_body]
fn sha256_digest(data: &[u8]) -> (digest: [u8; 32])
    ensures
        digest@ == sha256(data@),
{
    Sha256::digest(data).into()
}

/// Selects the partition for a digest that has already been computed.
pub fn partition_for_digest(digest: &[u8; 32], partition_count: u32) -> (partition: u32)
    requires
        partition_count > 0,
    ensures
        partition == partition_of_digest(digest@, partition_count),
        partition < partition_count,
{
    let b0: u32 = digest[0] as u32;
    let b1: u32 = digest[1] as u32;
    let b2: u32 = digest[2] as u32;
    let b3: u32 = digest[3] as u32;
    let prefix: u32 = b0 * 0x100_0000 + b1 * 0x1_0000 + b2 * 0x100 + b3;
    prefix % partition_count
}

/// Maps keys to partition numbers.
pub struct Partitioner {
    partition_count: u32,
}

impl Partitioner {
    /// The number of partitions that keys are spread over.
    pub closed spec fn count(&self) -> u32 {
        self.partition_count
    }

    /// A partitioner always has at least one partition.
    pub open spec fn wf(&self) -> bool {
        self.count() > 0
    }

    /// Creates a partitioner over `partition_count` partitions.
    pub fn new(partition_count: u32) -> (partitioner: Self)
        requires
            partition_count > 0,
        ensures
            partitioner.wf(),
            partitioner.count() == partition_count,
    {
        Partitioner { partition_count }
    }

    /// Maps a key to a partition number, counted from zero.
    pub fn partition(&self, key: &str) -> (partition: u32)
        requires
            self.wf(),
        ensures
            partition == partition_of_key(key@, self.count()),
            partition < self.count(),
    {
        let digest = sha256_digest(key.as_bytes());
        partition_for_digest(&digest, self.partition_count)
    }

    /// The number of partitions.
    pub fn partition_count(&self) -> (count: u32)
        ensures
            count == self.count(),
    {
        self.partition_count
    }
}

/// Every key has a partition, and it lies below the partition count. The
/// partition depends on nothing but the key and the count.
pub proof fn law_partition_in_range(key: Seq<char>, partition_count: u32)
    requires
        partition_count > 0,
    ensures
        0 <= partition_of_key(key, partition_count) < partition_count,
{
}

} // verus!
