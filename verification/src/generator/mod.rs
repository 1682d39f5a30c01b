use vstd::prelude::*;
use vstd::arithmetic::power2::pow2;

use std::time::SystemTime;

use crate::encoding::{encode, fields_fit};
use crate::layout::BitLayout;

pub mod components;
pub mod creation;
pub mod decomposition;
pub mod generation;
pub mod runs;

pub use components::SnowflakeComponents;

verus! {

/// A Snowflake ID generator with a configurable [`BitLayout`].
///
/// Its state is the epoch, the layout, the machine and node identifiers
/// baked into every ID, the timestamp of the current millisecond and the
/// sequence counter within it.
#[derive(Copy, Clone, Debug)]
pub struct SnowflakeIdGenerator {
    /// Epoch used for timestamp calculations.
    pub(crate) epoch: SystemTime,
    /// Timestamp of the last generated ID (millis since epoch).
    pub(crate) last_time_millis: i64,
    /// The machine identifier baked into every ID.
    pub(crate) machine_id: i32,
    /// The node (worker) identifier baked into every ID.
    pub(crate) node_id: i32,
    /// Per-millisecond auto-increment counter.
    pub(crate) idx: u32,
    /// Bit layout governing field widths and shifts.
    pub(crate) layout: BitLayout,
}

impl SnowflakeIdGenerator {
    /// The epoch timestamps count from.
    pub closed spec fn spec_epoch(&self) -> SystemTime {
        self.epoch
    }

    /// The timestamp the next ID is stamped with.
    pub closed spec fn last_millis(&self) -> int {
        self.last_time_millis as int
    }

    /// The machine identifier.
    pub closed spec fn machine(&self) -> int {
        self.machine_id as int
    }

    /// The node identifier.
    pub closed spec fn node(&self) -> int {
        self.node_id as int
    }

    /// The sequence number the next ID carries.
    pub closed spec fn sequence(&self) -> int {
        self.idx as int
    }

    /// The layout in use.
    pub closed spec fn spec_layout(&self) -> BitLayout {
        self.layout
    }

    /// A valid layout whose machine and node fields are narrower than 63 bits,
    /// with the machine, node and sequence within their fields, and a
    /// timestamp that is an `i64`.
    pub open spec fn wf(&self) -> bool {
        &&& i64::MIN <= self.last_millis() <= i64::MAX
        &&& self.spec_layout().wf()
        &&& self.spec_layout().mib() < 63
        &&& self.spec_layout().nib() < 63
        &&& fields_fit(self.spec_layout(), self.machine(), self.node(), self.sequence())
    }

    /// Generation computes `2^S - 1` in a `u32`: the sequence field must be
    /// narrower than 32 bits.
    pub open spec fn can_generate(&self) -> bool {
        self.spec_layout().sqb() < 32
    }

    /// The ID the generator's current state stands for.
    pub open spec fn current_id(&self) -> int {
        encode(self.spec_layout(), self.last_millis(), self.machine(), self.node(), self.sequence())
    }

    /// The sequence number after the current one, wrapping to 0.
    pub open spec fn next_sequence(&self) -> int {
        (self.sequence() + 1) % (pow2(self.spec_layout().sqb()) as int)
    }

    /// The counter steps by one, and wraps to 0 past the field's maximum.
    pub proof fn lemma_next_sequence(&self)
        requires
            self.wf(),
        ensures
            self.sequence() == self.spec_layout().spec_max_sequence() ==> self.next_sequence() == 0,
            self.sequence() < self.spec_layout().spec_max_sequence() ==> self.next_sequence()
                == self.sequence() + 1,
    {
        let d = pow2(self.spec_layout().sqb()) as int;
        vstd::arithmetic::power2::lemma_pow2_pos(self.spec_layout().sqb());
        if self.sequence() + 1 == d {
            vstd::arithmetic::div_mod::lemma_mod_self_0(d);
        } else {
            vstd::arithmetic::div_mod::lemma_small_mod((self.sequence() + 1) as nat, d as nat);
        }
    }

    /// Same epoch, layout, machine and node as `other`.
    pub open spec fn same_source(&self, other: Self) -> bool {
        &&& self.spec_epoch() == other.spec_epoch()
        &&& self.spec_layout() == other.spec_layout()
        &&& self.machine() == other.machine()
        &&& self.node() == other.node()
    }

    /// Returns a reference to the [`BitLayout`] in use.
    pub fn layout(&self) -> (r: &BitLayout)
        ensures
            *r == self.spec_layout(),
    {
        &self.layout
    }

    /// Returns the epoch this generator was constructed with.
    pub fn epoch(&self) -> (r: SystemTime)
        ensures
            r == self.spec_epoch(),
    {
        self.epoch
    }

    /// Returns the machine identifier.
    pub fn machine_id(&self) -> (r: i32)
        ensures
            r == self.machine(),
    {
        self.machine_id
    }

    /// Returns the node (worker) identifier.
    pub fn node_id(&self) -> (r: i32)
        ensures
            r == self.node(),
    {
        self.node_id
    }
}

} // verus!
