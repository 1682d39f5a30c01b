use snowflake_gen::{BitLayout, SnowflakeError};

#[test]
fn default_layout_is_valid() {
    let l = BitLayout::default();
    assert_eq!(l.max_sequence(), 4095);
    assert_eq!(l.max_machine_id(), 31);
    assert_eq!(l.max_node_id(), 31);
}

#[test]
fn custom_layout_capacities() {
    let l = BitLayout::new(38, 8, 7, 10).unwrap();
    assert_eq!(l.max_sequence(), 1023);
    assert_eq!(l.max_machine_id(), 255);
    assert_eq!(l.max_node_id(), 127);
}

#[test]
fn invalid_bit_layout_rejected() {
    assert!(BitLayout::new(40, 5, 5, 12).is_err());
}

#[test]
fn max_timestamp_millis() {
    let l = BitLayout::default();
    // 2^41 - 1 = 2_199_023_255_551 (~69 years in ms)
    assert_eq!(l.max_timestamp_millis(), 2_199_023_255_551);
}

#[test]
fn max_ids_per_second() {
    let l = BitLayout::default();
    // (4095 + 1) * (31 + 1) * (31 + 1) * 1000
    assert_eq!(l.max_ids_per_second(), 4_096 * 32 * 32 * 1_000);
}

#[test]
fn zero_width_fields() {
    // All bits to timestamp and sequence, zero machine/node
    let l = BitLayout::new(51, 0, 0, 12).unwrap();
    assert_eq!(l.max_machine_id(), 0);
    assert_eq!(l.max_node_id(), 0);
    assert_eq!(l.max_sequence(), 4095);
}

#[test]
fn max_sequence_bits_after_widening() {
    // 31 sequence bits — the widened u32 return type must handle this
    let l = BitLayout::new(16, 8, 8, 31).unwrap();
    assert_eq!(l.max_sequence(), (1u32 << 31) - 1);
}

#[test]
fn invalid_layout_reports_widths_and_sum() {
    let err = BitLayout::new(40, 5, 5, 12).unwrap_err();
    assert_eq!(err, SnowflakeError::InvalidBitLayout { t: 40, m: 5, n: 5, s: 12, total: 62 });
}

#[test]
fn invalid_layout_total_saturates_on_overflow() {
    let err = BitLayout::new(200, 100, 0, 0).unwrap_err();
    assert_eq!(err, SnowflakeError::InvalidBitLayout { t: 200, m: 100, n: 0, s: 0, total: 255 });
    let err = BitLayout::new(100, 100, 60, 1).unwrap_err();
    assert_eq!(err, SnowflakeError::InvalidBitLayout { t: 100, m: 100, n: 60, s: 1, total: 255 });
}

#[test]
fn layout_getters_report_widths() {
    let l = BitLayout::new(38, 8, 7, 10).unwrap();
    assert_eq!(l.timestamp_bits(), 38);
    assert_eq!(l.machine_id_bits(), 8);
    assert_eq!(l.node_id_bits(), 7);
    assert_eq!(l.sequence_bits(), 10);
    let d = BitLayout::default();
    assert_eq!(
        (d.timestamp_bits(), d.machine_id_bits(), d.node_id_bits(), d.sequence_bits()),
        (41, 5, 5, 12)
    );
}

#[test]
fn custom_layout_limits() {
    let l = BitLayout::new(38, 8, 7, 10).unwrap();
    assert_eq!(l.max_timestamp_millis(), (1i64 << 38) - 1);
    assert_eq!(l.max_ids_per_second(), 1024 * 256 * 128 * 1000);
    let wide = BitLayout::new(62, 0, 0, 1).unwrap();
    assert_eq!(wide.max_timestamp_millis(), (1i64 << 62) - 1);
    assert_eq!(wide.max_sequence(), 1);
}

#[test]
fn all_zero_sequence_layout() {
    let l = BitLayout::new(53, 5, 5, 0).unwrap();
    assert_eq!(l.max_sequence(), 0);
    assert_eq!(l.max_ids_per_second(), 32 * 32 * 1000);
}
