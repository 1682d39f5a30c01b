use vstd::prelude::*;

use std::time::SystemTime;

use crate::error::SnowflakeError;
use crate::generator::SnowflakeIdGenerator;
use crate::generator::creation::id_error;
use crate::layout::BitLayout;
use crate::utils::reading_at;

verus! {

/// Builds the generator for the `node_number`-th thread that asks for one:
/// that number becomes its node identifier.
///
/// Fails with `NodeIdExhausted` once the numbers run past the layout's
/// largest node identifier; otherwise as
/// [`SnowflakeIdGenerator::with_layout_and_epoch`].
pub fn create_generator(machine_id: i32, node_number: i32, layout: BitLayout, epoch: SystemTime) -> (r:
    Result<SnowflakeIdGenerator, SnowflakeError>)
    requires
        layout.wf(),
        layout.nib() < 63,
        node_number <= layout.spec_max_node_id() ==> layout.mib() < 63,
    ensures
        node_number > layout.spec_max_node_id() ==> r == Err::<SnowflakeIdGenerator, SnowflakeError>(
            SnowflakeError::NodeIdExhausted { max: layout.spec_max_node_id() as i64 },
        ),
        node_number <= layout.spec_max_node_id() ==> {
            &&& r matches Ok(g) ==> g.spec_layout() == layout && g.spec_epoch() == epoch
                && g.sequence() == 0 && g.machine() == machine_id && g.node() == node_number && g.wf()
            &&& id_error(layout, machine_id, node_number) matches Some(e) ==> r == Err::<
                SnowflakeIdGenerator,
                SnowflakeError,
            >(e)
            &&& id_error(layout, machine_id, node_number) is None ==> (r is Ok || r == Err::<
                SnowflakeIdGenerator,
                SnowflakeError,
            >(SnowflakeError::ClockBeforeEpoch))
            &&& id_error(layout, machine_id, node_number) is None ==> exists|now: SystemTime|
                match #[trigger] reading_at(now, epoch) {
                    Ok(ms) => r matches Ok(g) && g.last_millis() == ms,
                    Err(e) => r == Err::<SnowflakeIdGenerator, SnowflakeError>(e),
                }
        },
{
    let max_node = layout.max_node_id();
    if node_number as i64 > max_node {
        return Err(SnowflakeError::NodeIdExhausted { max: max_node });
    }
    SnowflakeIdGenerator::with_layout_and_epoch(machine_id, node_number, layout, epoch)
}

/// The answer to an initialization of the global configuration, given
/// whether it had already been initialized: the first succeeds, every later
/// one is refused with `AlreadyInitialized`.
pub fn init_outcome(was_initialized: bool) -> (r: Result<(), SnowflakeError>)
    ensures
        was_initialized ==> r == Err::<(), SnowflakeError>(SnowflakeError::AlreadyInitialized),
        !was_initialized ==> r == Ok::<(), SnowflakeError>(()),
{
    if was_initialized {
        Err(SnowflakeError::AlreadyInitialized)
    } else {
        Ok(())
    }
}

} // verus!
