use vstd::prelude::*;
use vstd::arithmetic::power2::pow2;
use vstd::bits::lemma_u64_pow2_no_overflow;

use crate::encoding::{lemma_ashr_is_floor_div, lemma_field_bits, machine_of, node_of, sequence_of,
    timestamp_of};
use crate::generator::SnowflakeIdGenerator;
use crate::generator::components::SnowflakeComponents;

verus! {

impl SnowflakeIdGenerator {
    /// Decodes an ID back into its fields under this generator's layout.
    ///
    /// The timestamp is the ID shifted right (rounding down) past the lower
    /// fields; machine and node are their fields' bits (then kept to an
    /// `i32`); the sequence is the lowest field.
    pub fn decompose(&self, id: i64) -> (r: SnowflakeComponents)
        requires
            self.wf(),
            self.can_generate(),
        ensures
            r.timestamp_millis == timestamp_of(self.spec_layout(), id as int),
            r.machine_id == machine_of(self.spec_layout(), id as int) as i32,
            r.node_id == node_of(self.spec_layout(), id as int) as i32,
            r.sequence == sequence_of(self.spec_layout(), id as int),
    {
        let layout = &self.layout;
        let sequence_mask: u64 = layout.max_sequence() as u64;
        let node_mask: u64 = layout.max_node_id() as u64;
        let machine_mask: u64 = layout.max_machine_id() as u64;
        let node_shift: u64 = layout.node_id_shift() as u64;
        let machine_shift: u64 = layout.machine_id_shift() as u64;
        let timestamp_shift: u64 = layout.timestamp_shift() as u64;

        let bits: u64 = id as u64;
        let sequence_bits: u64 = bits & sequence_mask;
        let node_bits: u64 = (bits >> node_shift) & node_mask;
        let machine_bits: u64 = (bits >> machine_shift) & machine_mask;
        let timestamp_millis: i64 = id >> timestamp_shift;
        proof {
            let l = *layout;
            lemma_field_bits(id, 0, l.sqb());
            assert(bits >> 0u64 == bits) by (bit_vector);
            vstd::arithmetic::power2::lemma2_to64();
            assert(id as int / 1 == id as int);
            lemma_field_bits(id, node_shift, l.nib());
            lemma_field_bits(id, machine_shift, l.mib());
            lemma_ashr_is_floor_div(id, timestamp_shift);
            lemma_u64_pow2_no_overflow(l.sqb());
        }
        SnowflakeComponents {
            timestamp_millis,
            machine_id: machine_bits as i32,
            node_id: node_bits as i32,
            sequence: sequence_bits as u32,
        }
    }
}

} // verus!
