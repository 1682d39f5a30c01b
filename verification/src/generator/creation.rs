use vstd::prelude::*;

use std::time::SystemTime;

use crate::error::SnowflakeError;
use crate::generator::SnowflakeIdGenerator;
use crate::layout::BitLayout;
use crate::utils::{get_time_millis, reading_at, unix_epoch};

verus! {

/// `machine_id` lies within the layout's machine field.
pub open spec fn machine_id_valid(layout: BitLayout, machine_id: int) -> bool {
    0 <= machine_id <= layout.spec_max_machine_id()
}

/// `node_id` lies within the layout's node field.
pub open spec fn node_id_valid(layout: BitLayout, node_id: int) -> bool {
    0 <= node_id <= layout.spec_max_node_id()
}

/// The error, if any, that the identifiers alone call for: the machine is
/// checked before the node.
pub open spec fn id_error(layout: BitLayout, machine_id: i32, node_id: i32) -> Option<SnowflakeError> {
    if !machine_id_valid(layout, machine_id as int) {
        Some(
            SnowflakeError::MachineIdOutOfRange {
                given: machine_id as i64,
                max: layout.spec_max_machine_id() as i64,
            },
        )
    } else if !node_id_valid(layout, node_id as int) {
        Some(
            SnowflakeError::NodeIdOutOfRange {
                given: node_id as i64,
                max: layout.spec_max_node_id() as i64,
            },
        )
    } else {
        None
    }
}

/// The identifier checks can run on `layout` for `machine_id`: the layout
/// is valid, the machine field's maximum fits in an `i64`, and so does the
/// node field's once the machine identifier has passed (the node is checked
/// only then).
pub open spec fn checkable(layout: BitLayout, machine_id: i32) -> bool {
    &&& layout.wf()
    &&& layout.mib() < 63
    &&& machine_id_valid(layout, machine_id as int) ==> layout.nib() < 63
}

impl SnowflakeIdGenerator {
    /// A freshly built generator: the given source, the given start time,
    /// sequence 0.
    pub open spec fn fresh(
        &self,
        machine_id: i32,
        node_id: i32,
        layout: BitLayout,
        epoch: SystemTime,
        start_millis: int,
    ) -> bool {
        &&& self.wf()
        &&& self.spec_epoch() == epoch
        &&& self.spec_layout() == layout
        &&& self.machine() == machine_id
        &&& self.node() == node_id
        &&& self.sequence() == 0
        &&& self.last_millis() == start_millis
    }

    /// Constructs a generator using the UNIX epoch and the default [`BitLayout`].
    pub fn new(machine_id: i32, node_id: i32) -> (r: Result<Self, SnowflakeError>)
        ensures
            r matches Ok(g) ==> g.spec_layout().has_widths(41, 5, 5, 12) && g.sequence() == 0
                && g.machine() == machine_id && g.node() == node_id && g.wf(),
            !(0 <= machine_id <= 31) ==> r == Err::<Self, SnowflakeError>(
                SnowflakeError::MachineIdOutOfRange { given: machine_id as i64, max: 31 },
            ),
            0 <= machine_id <= 31 && !(0 <= node_id <= 31) ==> r == Err::<Self, SnowflakeError>(
                SnowflakeError::NodeIdOutOfRange { given: node_id as i64, max: 31 },
            ),
            0 <= machine_id <= 31 && 0 <= node_id <= 31 ==> (r is Ok || r == Err::<
                Self,
                SnowflakeError,
            >(SnowflakeError::ClockBeforeEpoch)),
            0 <= machine_id <= 31 && 0 <= node_id <= 31 ==> exists|now: SystemTime, epoch: SystemTime|
                match #[trigger] reading_at(now, epoch) {
                    Ok(ms) => r matches Ok(g) && g.spec_epoch() == epoch && g.last_millis() == ms,
                    Err(e) => r == Err::<Self, SnowflakeError>(e),
                },
    {
        Self::with_epoch(machine_id, node_id, unix_epoch())
    }

    /// Constructs a generator using a custom epoch and the default [`BitLayout`].
    pub fn with_epoch(machine_id: i32, node_id: i32, epoch: SystemTime) -> (r: Result<
        Self,
        SnowflakeError,
    >)
        ensures
            r matches Ok(g) ==> g.spec_layout().has_widths(41, 5, 5, 12) && g.spec_epoch() == epoch
                && g.sequence() == 0 && g.machine() == machine_id && g.node() == node_id && g.wf(),
            !(0 <= machine_id <= 31) ==> r == Err::<Self, SnowflakeError>(
                SnowflakeError::MachineIdOutOfRange { given: machine_id as i64, max: 31 },
            ),
            0 <= machine_id <= 31 && !(0 <= node_id <= 31) ==> r == Err::<Self, SnowflakeError>(
                SnowflakeError::NodeIdOutOfRange { given: node_id as i64, max: 31 },
            ),
            0 <= machine_id <= 31 && 0 <= node_id <= 31 ==> (r is Ok || r == Err::<
                Self,
                SnowflakeError,
            >(SnowflakeError::ClockBeforeEpoch)),
            0 <= machine_id <= 31 && 0 <= node_id <= 31 ==> exists|now: SystemTime|
                match #[trigger] reading_at(now, epoch) {
                    Ok(ms) => r matches Ok(g) && g.last_millis() == ms,
                    Err(e) => r == Err::<Self, SnowflakeError>(e),
                },
    {
        let layout = BitLayout::default();
        proof {
            vstd::arithmetic::power2::lemma2_to64();
        }
        Self::with_layout_and_epoch(machine_id, node_id, layout, epoch)
    }

    /// Constructs a generator with a fully custom [`BitLayout`] and UNIX epoch.
    pub fn with_layout(machine_id: i32, node_id: i32, layout: BitLayout) -> (r: Result<
        Self,
        SnowflakeError,
    >)
        requires
            checkable(layout, machine_id),
        ensures
            r matches Ok(g) ==> g.spec_layout() == layout && g.sequence() == 0 && g.machine()
                == machine_id && g.node() == node_id && g.wf(),
            id_error(layout, machine_id, node_id) matches Some(e) ==> r == Err::<
                Self,
                SnowflakeError,
            >(e),
            id_error(layout, machine_id, node_id) is None ==> (r is Ok || r == Err::<
                Self,
                SnowflakeError,
            >(SnowflakeError::ClockBeforeEpoch)),
            id_error(layout, machine_id, node_id) is None ==> exists|now: SystemTime, epoch: SystemTime|
                match #[trigger] reading_at(now, epoch) {
                    Ok(ms) => r matches Ok(g) && g.spec_epoch() == epoch && g.last_millis() == ms,
                    Err(e) => r == Err::<Self, SnowflakeError>(e),
                },
    {
        Self::with_layout_and_epoch(machine_id, node_id, layout, unix_epoch())
    }

    /// Constructs a generator with a fully custom [`BitLayout`] and epoch,
    /// starting at the current time.
    ///
    /// Fails with `MachineIdOutOfRange` or `NodeIdOutOfRange` (in that
    /// order) for identifiers outside their fields, and with
    /// `ClockBeforeEpoch` if the clock reads a time before `epoch`.
    pub fn with_layout_and_epoch(
        machine_id: i32,
        node_id: i32,
        layout: BitLayout,
        epoch: SystemTime,
    ) -> (r: Result<Self, SnowflakeError>)
        requires
            checkable(layout, machine_id),
        ensures
            r matches Ok(g) ==> g.spec_layout() == layout && g.spec_epoch() == epoch && g.sequence()
                == 0 && g.machine() == machine_id && g.node() == node_id && g.wf(),
            id_error(layout, machine_id, node_id) matches Some(e) ==> r == Err::<
                Self,
                SnowflakeError,
            >(e),
            id_error(layout, machine_id, node_id) is None ==> (r is Ok || r == Err::<
                Self,
                SnowflakeError,
            >(SnowflakeError::ClockBeforeEpoch)),
            id_error(layout, machine_id, node_id) is None ==> exists|now: SystemTime|
                match #[trigger] reading_at(now, epoch) {
                    Ok(ms) => r matches Ok(g) && g.last_millis() == ms,
                    Err(e) => r == Err::<Self, SnowflakeError>(e),
                },
    {
        let reading = get_time_millis(epoch);
        Self::from_clock_reading(machine_id, node_id, layout, epoch, reading)
    }

    /// Constructs a generator from an already taken clock reading: checks
    /// the identifiers, then starts at the reading (or fails with its error).
    pub fn from_clock_reading(
        machine_id: i32,
        node_id: i32,
        layout: BitLayout,
        epoch: SystemTime,
        reading: Result<i64, SnowflakeError>,
    ) -> (r: Result<Self, SnowflakeError>)
        requires
            checkable(layout, machine_id),
        ensures
            id_error(layout, machine_id, node_id) matches Some(e) ==> r == Err::<
                Self,
                SnowflakeError,
            >(e),
            id_error(layout, machine_id, node_id) is None ==> match reading {
                Ok(now) => r matches Ok(g) && g.fresh(machine_id, node_id, layout, epoch, now as int),
                Err(e) => r == Err::<Self, SnowflakeError>(e),
            },
    {
        let max_machine = layout.max_machine_id();
        if machine_id < 0 || machine_id as i64 > max_machine {
            return Err(
                SnowflakeError::MachineIdOutOfRange { given: machine_id as i64, max: max_machine },
            );
        }
        let max_node = layout.max_node_id();
        if node_id < 0 || node_id as i64 > max_node {
            return Err(SnowflakeError::NodeIdOutOfRange { given: node_id as i64, max: max_node });
        }
        let last_time_millis = reading?;
        proof {
            vstd::arithmetic::power2::lemma_pow2_pos(layout.sqb());
        }
        Ok(Self { epoch, last_time_millis, machine_id, node_id, idx: 0, layout })
    }
}

} // verus!
