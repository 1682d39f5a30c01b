use snowflake_gen::global::create_generator;
use snowflake_gen::utils::{bide_step, elapsed_to_millis, get_time_millis};
use snowflake_gen::{BitLayout, SnowflakeComponents, SnowflakeError, SnowflakeIdGenerator};
use std::time::{Duration, SystemTime, UNIX_EPOCH};

// ── Construction validation ──────────────────────────────────────────

#[test]
fn machine_id_out_of_range() {
    let err = SnowflakeIdGenerator::new(32, 0).unwrap_err();
    assert!(matches!(err, SnowflakeError::MachineIdOutOfRange { .. }));
}

#[test]
fn negative_machine_id_rejected() {
    let err = SnowflakeIdGenerator::new(-1, 0).unwrap_err();
    assert!(matches!(err, SnowflakeError::MachineIdOutOfRange { given: -1, .. }));
}

#[test]
fn node_id_out_of_range() {
    let err = SnowflakeIdGenerator::new(0, 32).unwrap_err();
    assert!(matches!(err, SnowflakeError::NodeIdOutOfRange { .. }));
}

#[test]
fn negative_node_id_rejected() {
    let err = SnowflakeIdGenerator::new(0, -1).unwrap_err();
    assert!(matches!(err, SnowflakeError::NodeIdOutOfRange { given: -1, .. }));
}

#[test]
fn epoch_in_future_rejected() {
    let future = SystemTime::now() + Duration::from_secs(3600);
    let err = SnowflakeIdGenerator::with_epoch(0, 0, future).unwrap_err();
    assert!(matches!(err, SnowflakeError::ClockBeforeEpoch));
}

#[test]
fn custom_epoch_accepted() {
    // Discord epoch: 1 January 2015
    let epoch = UNIX_EPOCH + Duration::from_millis(1_420_070_400_000);
    let mut idgen = SnowflakeIdGenerator::with_epoch(1, 1, epoch).unwrap();
    let id = idgen.generate().unwrap();
    assert!(id > 0);
}

// ── generate() ───────────────────────────────────────────────────────

#[test]
fn monotonicity() {
    let mut idgen = SnowflakeIdGenerator::new(1, 1).unwrap();
    let mut prev = idgen.generate().unwrap();
    for _ in 0..10_000 {
        let next = idgen.generate().unwrap();
        assert!(next > prev);
        prev = next;
    }
}

#[test]
fn first_id_uses_sequence_zero() {
    let mut idgen = SnowflakeIdGenerator::new(0, 0).unwrap();
    let id = idgen.generate().unwrap();
    let parts = idgen.decompose(id);
    assert_eq!(parts.sequence, 0);
}

#[test]
fn sequence_exhaustion_advances_timestamp() {
    let mut idgen = SnowflakeIdGenerator::new(0, 0).unwrap();
    let first = idgen.generate().unwrap();
    let first_parts = idgen.decompose(first);

    // Exhaust the full sequence (0..=max_sequence)
    let max_seq = idgen.layout().max_sequence() as usize;
    for _ in 1..=max_seq {
        let _ = idgen.generate().unwrap();
    }

    // Next ID must have a later timestamp
    let after = idgen.generate().unwrap();
    let after_parts = idgen.decompose(after);
    assert!(
        after_parts.timestamp_millis > first_parts.timestamp_millis,
        "timestamp should advance after sequence exhaustion"
    );
    assert_eq!(after_parts.sequence, 0);
}

// ── real_time_generate() ─────────────────────────────────────────────

#[test]
fn real_time_generate_monotonicity() {
    let mut idgen = SnowflakeIdGenerator::new(1, 1).unwrap();
    let mut prev = idgen.real_time_generate().unwrap();
    for _ in 0..10_000 {
        let next = idgen.real_time_generate().unwrap();
        assert!(next > prev);
        prev = next;
    }
}

#[test]
fn real_time_generate_uniqueness() {
    let mut idgen = SnowflakeIdGenerator::new(1, 1).unwrap();
    let mut ids: Vec<i64> = (0..5_000).map(|_| idgen.real_time_generate().unwrap()).collect();
    let len = ids.len();
    ids.sort_unstable();
    ids.dedup();
    assert_eq!(ids.len(), len, "all IDs must be unique");
}

// ── lazy_generate() ──────────────────────────────────────────────────

#[test]
fn lazy_generate_uniqueness() {
    let mut idgen = SnowflakeIdGenerator::new(1, 1).unwrap();
    let mut ids: Vec<i64> = (0..10_000).map(|_| idgen.lazy_generate()).collect();
    let len = ids.len();
    ids.sort_unstable();
    ids.dedup();
    assert_eq!(ids.len(), len, "all lazy IDs must be unique");
}

#[test]
fn lazy_generate_monotonicity() {
    let mut idgen = SnowflakeIdGenerator::new(1, 1).unwrap();
    let mut prev = idgen.lazy_generate();
    for _ in 0..10_000 {
        let next = idgen.lazy_generate();
        assert!(next > prev);
        prev = next;
    }
}

#[test]
fn lazy_generate_bumps_timestamp_on_wrap() {
    let mut idgen = SnowflakeIdGenerator::new(0, 0).unwrap();
    let first = idgen.lazy_generate();
    let first_ts = idgen.decompose(first).timestamp_millis;

    let max_seq = idgen.layout().max_sequence() as usize;
    for _ in 1..=max_seq {
        let _ = idgen.lazy_generate();
    }

    // Sequence just wrapped — next ID should have timestamp + 1
    let after = idgen.lazy_generate();
    let after_ts = idgen.decompose(after).timestamp_millis;
    assert_eq!(after_ts, first_ts + 1);
}

// ── Decomposition ────────────────────────────────────────────────────

#[test]
fn round_trip() {
    let mut idgen = SnowflakeIdGenerator::new(5, 11).unwrap();
    let id = idgen.generate().unwrap();
    let parts = idgen.decompose(id);
    assert_eq!(parts.machine_id, 5);
    assert_eq!(parts.node_id, 11);
}

#[test]
fn round_trip_includes_sequence() {
    let mut idgen = SnowflakeIdGenerator::new(1, 1).unwrap();

    // First ID → sequence 0
    let id0 = idgen.generate().unwrap();
    assert_eq!(idgen.decompose(id0).sequence, 0);

    // Second ID → sequence 1
    let id1 = idgen.generate().unwrap();
    assert_eq!(idgen.decompose(id1).sequence, 1);
}

#[test]
fn decompose_custom_layout() {
    let layout = BitLayout::new(38, 8, 7, 10).unwrap();
    let mut idgen = SnowflakeIdGenerator::with_layout(100, 60, layout).unwrap();
    let id = idgen.generate().unwrap();
    let parts = idgen.decompose(id);

    assert_eq!(parts.machine_id, 100);
    assert_eq!(parts.node_id, 60);
}

#[test]
fn decompose_with_custom_epoch() {
    let epoch = UNIX_EPOCH + Duration::from_millis(1_420_070_400_000);
    let mut idgen = SnowflakeIdGenerator::with_epoch(3, 7, epoch).unwrap();
    let id = idgen.generate().unwrap();
    let parts = idgen.decompose(id);

    assert_eq!(parts.machine_id, 3);
    assert_eq!(parts.node_id, 7);
    assert!(parts.timestamp_millis > 0);
}

// ── Deterministic generation from given clock readings ──────────────

fn generator_at(machine: i32, node: i32, layout: BitLayout, start: i64) -> SnowflakeIdGenerator {
    SnowflakeIdGenerator::from_clock_reading(machine, node, layout, UNIX_EPOCH, Ok(start)).unwrap()
}

#[test]
fn from_clock_reading_starts_at_reading() {
    let mut g = generator_at(3, 7, BitLayout::default(), 1_000);
    assert_eq!(g.machine_id(), 3);
    assert_eq!(g.node_id(), 7);
    assert_eq!(g.epoch(), UNIX_EPOCH);
    assert_eq!(*g.layout(), BitLayout::default());
    // 1000 << 22 | 3 << 17 | 7 << 12 | 0
    assert_eq!(g.lazy_generate(), (1_000i64 << 22) | (3 << 17) | (7 << 12));
    assert_eq!(g.lazy_generate(), (1_000i64 << 22) | (3 << 17) | (7 << 12) | 1);
}

#[test]
fn from_clock_reading_checks_ids_first() {
    let layout = BitLayout::default();
    let err = SnowflakeIdGenerator::from_clock_reading(40, 40, layout, UNIX_EPOCH, Err(SnowflakeError::ClockBeforeEpoch))
        .unwrap_err();
    assert_eq!(err, SnowflakeError::MachineIdOutOfRange { given: 40, max: 31 });
    let err = SnowflakeIdGenerator::from_clock_reading(1, 40, layout, UNIX_EPOCH, Ok(5)).unwrap_err();
    assert_eq!(err, SnowflakeError::NodeIdOutOfRange { given: 40, max: 31 });
    let err = SnowflakeIdGenerator::from_clock_reading(1, 1, layout, UNIX_EPOCH, Err(SnowflakeError::ClockBeforeEpoch))
        .unwrap_err();
    assert_eq!(err, SnowflakeError::ClockBeforeEpoch);
}

#[test]
fn with_layout_reports_layout_maximum() {
    let layout = BitLayout::new(38, 8, 7, 10).unwrap();
    let err = SnowflakeIdGenerator::with_layout(256, 0, layout).unwrap_err();
    assert_eq!(err, SnowflakeError::MachineIdOutOfRange { given: 256, max: 255 });
    let err = SnowflakeIdGenerator::with_layout_and_epoch(255, 128, layout, UNIX_EPOCH).unwrap_err();
    assert_eq!(err, SnowflakeError::NodeIdOutOfRange { given: 128, max: 127 });
}

#[test]
fn generate_at_rejects_earlier_reading() {
    let mut g = generator_at(1, 1, BitLayout::default(), 5_000);
    let before = g;
    assert_eq!(g.generate_at(4_999), Err(SnowflakeError::ClockMovedBackwards));
    // unchanged: the next ID is still the first one of millisecond 5000
    let mut b = before;
    assert_eq!(g.lazy_generate(), b.lazy_generate());
}

#[test]
fn generate_at_same_and_new_millisecond() {
    let layout = BitLayout::default();
    let mut g = generator_at(2, 3, layout, 5_000);
    let base = (2i64 << 17) | (3 << 12);
    assert_eq!(g.generate_at(5_000), Ok((5_000i64 << 22) | base));
    assert_eq!(g.generate_at(5_000), Ok((5_000i64 << 22) | base | 1));
    // a later millisecond restarts the sequence
    assert_eq!(g.generate_at(5_003), Ok((5_003i64 << 22) | base));
    let id = g.generate_at(5_003).unwrap();
    let parts = g.decompose(id);
    assert_eq!(parts, SnowflakeComponents { timestamp_millis: 5_003, machine_id: 2, node_id: 3, sequence: 1 });
}

#[test]
fn lazy_wrap_with_one_bit_sequence() {
    let layout = BitLayout::new(60, 1, 1, 1).unwrap();
    let mut g = generator_at(1, 0, layout, 10);
    // fields: ts << 3 | machine << 2 | node << 1 | seq
    assert_eq!(g.lazy_generate(), (10 << 3) | (1 << 2));
    assert_eq!(g.lazy_generate(), (10 << 3) | (1 << 2) | 1);
    assert_eq!(g.lazy_generate(), (11 << 3) | (1 << 2));
}

#[test]
fn decompose_exact_fields() {
    let layout = BitLayout::new(38, 8, 7, 10).unwrap();
    let g = generator_at(0, 0, layout, 0);
    let id: i64 = (123_456 << 25) | (200 << 17) | (99 << 10) | 777;
    assert_eq!(
        g.decompose(id),
        SnowflakeComponents { timestamp_millis: 123_456, machine_id: 200, node_id: 99, sequence: 777 }
    );
}

#[test]
fn decompose_negative_id_rounds_timestamp_down() {
    let g = generator_at(0, 0, BitLayout::default(), 0);
    let parts = g.decompose(-1);
    assert_eq!(parts.timestamp_millis, -1);
    assert_eq!(parts.machine_id, 31);
    assert_eq!(parts.node_id, 31);
    assert_eq!(parts.sequence, 4095);
}

#[test]
fn oversized_timestamp_keeps_lower_fields() {
    // the timestamp no longer fits 38 bits; machine, node and sequence survive
    let layout = BitLayout::new(38, 8, 7, 10).unwrap();
    let mut g = generator_at(100, 60, layout, 1_700_000_000_000);
    let id = g.lazy_generate();
    let parts = g.decompose(id);
    assert_eq!((parts.machine_id, parts.node_id, parts.sequence), (100, 60, 0));
    assert_ne!(parts.timestamp_millis, 1_700_000_000_000);
}

#[test]
fn create_generator_numbers_nodes() {
    let layout = BitLayout::default();
    let g = create_generator(4, 31, layout, UNIX_EPOCH).unwrap();
    assert_eq!(g.node_id(), 31);
    assert_eq!(g.machine_id(), 4);
    let err = create_generator(4, 32, layout, UNIX_EPOCH).unwrap_err();
    assert_eq!(err, SnowflakeError::NodeIdExhausted { max: 31 });
    let err = create_generator(99, 0, layout, UNIX_EPOCH).unwrap_err();
    assert_eq!(err, SnowflakeError::MachineIdOutOfRange { given: 99, max: 31 });
}

#[test]
fn clock_reading_is_current() {
    let now = get_time_millis(UNIX_EPOCH).unwrap();
    // later than 2023-11-14 (1.7e12 ms after the UNIX epoch)
    assert!(now > 1_700_000_000_000);
    let future = SystemTime::now() + Duration::from_secs(60);
    assert_eq!(get_time_millis(future), Err(SnowflakeError::ClockBeforeEpoch));
}

#[test]
fn advance_to_after_wrap() {
    let mut g = generator_at(1, 1, BitLayout::default(), 2_000);
    assert_eq!(g.advance_to(1_999), Err(SnowflakeError::ClockMovedBackwards));
    assert_eq!(g.advance_to(2_000), Ok(false));
    assert_eq!(g.advance_to(2_500), Ok(true));
    // the next ID is stamped with the adopted reading
    let id = g.lazy_generate();
    assert_eq!(g.decompose(id).timestamp_millis, 2_500);
}

#[test]
fn elapsed_millis_become_timestamps() {
    assert_eq!(elapsed_to_millis(Some(1_700_000_000_123)), Ok(1_700_000_000_123));
    assert_eq!(elapsed_to_millis(None), Err(SnowflakeError::ClockBeforeEpoch));
    // beyond i64 the count is kept to its low 64 bits
    assert_eq!(elapsed_to_millis(Some((1u128 << 64) + 5)), Ok(5));
    assert_eq!(elapsed_to_millis(Some(u64::MAX as u128)), Ok(-1));
}

#[test]
fn second_initialization_is_refused() {
    assert_eq!(snowflake_gen::global::init_outcome(false), Ok(()));
    assert_eq!(snowflake_gen::global::init_outcome(true), Err(SnowflakeError::AlreadyInitialized));
}

#[test]
fn bide_step_decides_each_poll() {
    assert_eq!(bide_step(10, Ok(11)), Some(Ok(11)));
    assert_eq!(bide_step(10, Ok(10)), None);
    assert_eq!(bide_step(10, Ok(3)), None);
    assert_eq!(bide_step(10, Err(SnowflakeError::ClockBeforeEpoch)), Some(Err(SnowflakeError::ClockBeforeEpoch)));
}

#[test]
fn readings_count_from_the_epoch() {
    let offset = 1_700_000_000_000u64;
    let later_epoch = UNIX_EPOCH + Duration::from_millis(offset);
    let from_unix = get_time_millis(UNIX_EPOCH).unwrap();
    let from_later = get_time_millis(later_epoch).unwrap();
    // the same clock counted from an epoch `offset` ms later reads about `offset` less
    let diff = from_unix - from_later;
    assert!(diff >= offset as i64 && diff < offset as i64 + 1_000);
}

#[test]
fn generate_run_counts_sequence_up() {
    let mut g = generator_at(3, 4, BitLayout::default(), 1_000);
    for k in 0..10i64 {
        assert_eq!(g.generate(), Ok((1_000i64 << 22) | (3 << 17) | (4 << 12) | k));
    }
}

#[test]
fn lazy_run_positions() {
    // two sequence numbers per millisecond
    let layout = BitLayout::new(60, 1, 1, 1).unwrap();
    let mut g = generator_at(1, 1, layout, 500);
    for k in 0..8i64 {
        let id = g.lazy_generate();
        let parts = g.decompose(id);
        assert_eq!(
            parts,
            SnowflakeComponents { timestamp_millis: 500 + k / 2, machine_id: 1, node_id: 1, sequence: (k % 2) as u32 }
        );
    }
}

#[test]
fn failed_wrap_leaves_generator_unchanged() {
    // a one-bit sequence, with a timestamp far ahead of the clock
    let layout = BitLayout::new(60, 1, 1, 1).unwrap();
    let ahead = 1i64 << 55;
    let mut g = generator_at(1, 1, layout, ahead);
    let first = g.generate().unwrap();
    let before = g;
    // the counter wraps here; the clock reads earlier than the timestamp
    assert_eq!(g.generate(), Err(SnowflakeError::ClockMovedBackwards));
    assert_eq!(g.generate(), Err(SnowflakeError::ClockMovedBackwards));
    // nothing moved back: the next lazily handed-out ID is the one after `first`
    let (mut a, mut b) = (g, before);
    let next = a.lazy_generate();
    assert_eq!(next, b.lazy_generate());
    assert!(next > first);
}

#[test]
fn failed_real_time_reading_leaves_generator_unchanged() {
    let ahead = (1i64 << 41) - 1;
    let mut g = generator_at(2, 2, BitLayout::default(), ahead);
    let mut before = g;
    assert_eq!(g.real_time_generate(), Err(SnowflakeError::ClockMovedBackwards));
    assert_eq!(g.lazy_generate(), before.lazy_generate());
}

#[test]
fn wide_fields_still_answer_identifier_errors() {
    // a 63-bit node field: a bad machine identifier is reported before the node is looked at
    let layout = BitLayout::new(0, 0, 63, 0).unwrap();
    let err = SnowflakeIdGenerator::with_layout_and_epoch(1, 0, layout, UNIX_EPOCH).unwrap_err();
    assert_eq!(err, SnowflakeError::MachineIdOutOfRange { given: 1, max: 0 });
    // a 63-bit machine field: numbers past the node field's maximum are exhausted
    let layout = BitLayout::new(0, 63, 0, 0).unwrap();
    assert_eq!(create_generator(0, 1, layout, UNIX_EPOCH).unwrap_err(), SnowflakeError::NodeIdExhausted { max: 0 });
}
