use snowflake_gen::bucket::SnowflakeIdBucket;
use snowflake_gen::BitLayout;
use snowflake_gen::SnowflakeError;
use std::time::{Duration, UNIX_EPOCH};

#[test]
fn bucket_ids_are_unique() {
    let mut bucket = SnowflakeIdBucket::new(1, 1).unwrap();
    let mut ids: Vec<i64> = (0..4096).map(|_| bucket.get_id()).collect();
    ids.sort_unstable();
    ids.dedup();
    assert_eq!(ids.len(), 4096);
}

#[test]
fn bucket_multi_refill_unique() {
    let mut bucket = SnowflakeIdBucket::new(1, 1).unwrap();
    // 3 full refills worth of IDs (default max_sequence = 4095, so 4096 per refill)
    let count = 4096 * 3;
    let mut ids: Vec<i64> = (0..count).map(|_| bucket.get_id()).collect();
    let len = ids.len();
    ids.sort_unstable();
    ids.dedup();
    assert_eq!(ids.len(), len, "IDs must stay unique across refills");
}

#[test]
fn bucket_with_epoch() {
    let epoch = UNIX_EPOCH + Duration::from_millis(1_420_070_400_000);
    let mut bucket = SnowflakeIdBucket::with_epoch(1, 1, epoch).unwrap();
    let id = bucket.get_id();
    assert!(id > 0);
}

#[test]
fn bucket_with_layout_and_epoch() {
    let layout = BitLayout::new(38, 8, 7, 10).unwrap();
    // Use a recent epoch so the timestamp fits in 38 bits
    let epoch = UNIX_EPOCH + Duration::from_millis(1_700_000_000_000);
    let mut bucket = SnowflakeIdBucket::with_layout_and_epoch(1, 1, layout, epoch).unwrap();
    let id = bucket.get_id();
    assert!(id > 0);
}

#[test]
fn bucket_hands_out_a_millisecond_from_the_top() {
    let layout = BitLayout::new(51, 5, 5, 2).unwrap();
    let mut bucket = SnowflakeIdBucket::with_layout_and_epoch(3, 4, layout, UNIX_EPOCH).unwrap();
    let g = *bucket.generator();
    let mut seqs = Vec::new();
    let mut stamps = Vec::new();
    for _ in 0..8 {
        let parts = g.decompose(bucket.get_id());
        assert_eq!((parts.machine_id, parts.node_id), (3, 4));
        seqs.push(parts.sequence);
        stamps.push(parts.timestamp_millis);
    }
    assert_eq!(seqs, vec![3, 2, 1, 0, 3, 2, 1, 0]);
    assert_eq!(stamps[4], stamps[0] + 1);
    assert!(stamps[..4].iter().all(|t| *t == stamps[0]));
}

#[test]
fn bucket_generator_advances_one_millisecond_per_refill() {
    let mut bucket = SnowflakeIdBucket::new(0, 0).unwrap();
    let first = bucket.get_id();
    let g = *bucket.generator();
    let parts = g.decompose(first);
    assert_eq!(parts.sequence, 4095);
    // after the first refill the generator stands at the next millisecond
    let mut probe = g;
    let next = probe.lazy_generate();
    assert_eq!(probe.decompose(next).timestamp_millis, parts.timestamp_millis + 1);
}

#[test]
fn bucket_rejects_bad_ids() {
    assert_eq!(
        SnowflakeIdBucket::new(32, 0).unwrap_err(),
        SnowflakeError::MachineIdOutOfRange { given: 32, max: 31 }
    );
    assert_eq!(
        SnowflakeIdBucket::new(0, -3).unwrap_err(),
        SnowflakeError::NodeIdOutOfRange { given: -3, max: 31 }
    );
    let future = std::time::SystemTime::now() + Duration::from_secs(3600);
    assert_eq!(SnowflakeIdBucket::with_epoch(0, 0, future).unwrap_err(), SnowflakeError::ClockBeforeEpoch);
}
