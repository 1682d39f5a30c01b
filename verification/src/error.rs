use vstd::prelude::*;

verus! {

/// All errors that the snowflake crate can produce.
#[derive(Debug, Clone, PartialEq, Eq, Structural)]
pub enum SnowflakeError {
    /// The bit widths of all four fields do not sum to 63.
    InvalidBitLayout { t: u8, m: u8, n: u8, s: u8, total: u8 },
    /// A `machine_id` was provided that exceeds the layout's maximum.
    MachineIdOutOfRange { given: i64, max: i64 },
    /// A `node_id` was provided that exceeds the layout's maximum.
    NodeIdOutOfRange { given: i64, max: i64 },
    /// The global generator has already been initialized.
    AlreadyInitialized,
    /// More threads asked for a generator than `node_id_bits` can number.
    NodeIdExhausted { max: i64 },
    /// The system clock moved backwards, which would break ID monotonicity.
    ClockMovedBackwards,
    /// The system clock reads a time before the configured epoch.
    ClockBeforeEpoch,
}

} // verus!
