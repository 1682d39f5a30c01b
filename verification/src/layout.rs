use vstd::prelude::*;
use vstd::arithmetic::power2::{pow2, lemma_pow2_pos, lemma2_to64};
use vstd::arithmetic::mul::lemma_mul_inequality;
use vstd::bits::{lemma_u64_shl_is_mul, lemma_u64_pow2_no_overflow};

use crate::error::SnowflakeError;

verus! {

/// Number of usable bits in an `i64` ID once the sign bit is reserved.
pub const ID_BITS: u8 = 63;

/// `2^bits - 1`, the largest value that fits in `bits` bits.
pub open spec fn field_max(bits: nat) -> int {
    pow2(bits) - 1
}

/// The value that `checked_add` chaining yields for the four widths:
/// their sum when it fits in a `u8`, else `u8::MAX`.
pub open spec fn saturated_total(t: u8, m: u8, n: u8, s: u8) -> u8 {
    if t + m + n + s <= u8::MAX {
        (t + m + n + s) as u8
    } else {
        u8::MAX
    }
}

/// Describes how the 63 usable bits of an `i64` snowflake ID are partitioned.
///
/// Field ordering, most significant first:
/// `[sign(1)] [timestamp(T)] [machine_id(M)] [node_id(N)] [sequence(S)]`.
#[must_use]
#[derive(Copy, Clone, Debug, PartialEq, Eq, Structural)]
pub struct BitLayout {
    pub(crate) timestamp_bits: u8,
    pub(crate) machine_id_bits: u8,
    pub(crate) node_id_bits: u8,
    pub(crate) sequence_bits: u8,
    pub(crate) node_id_shift: u8,
    pub(crate) machine_id_shift: u8,
    pub(crate) timestamp_shift: u8,
}

impl BitLayout {
    /// Width of the timestamp field.
    pub closed spec fn tsb(&self) -> nat {
        self.timestamp_bits as nat
    }

    /// Width of the machine field.
    pub closed spec fn mib(&self) -> nat {
        self.machine_id_bits as nat
    }

    /// Width of the node field.
    pub closed spec fn nib(&self) -> nat {
        self.node_id_bits as nat
    }

    /// Width of the sequence field.
    pub closed spec fn sqb(&self) -> nat {
        self.sequence_bits as nat
    }

    /// Offset of the node field.
    pub closed spec fn node_shift(&self) -> nat {
        self.node_id_shift as nat
    }

    /// Offset of the machine field.
    pub closed spec fn machine_shift(&self) -> nat {
        self.machine_id_shift as nat
    }

    /// Offset of the timestamp field.
    pub closed spec fn ts_shift(&self) -> nat {
        self.timestamp_shift as nat
    }

    /// The widths fill the 63 usable bits and each offset is the sum of the
    /// widths below it.
    pub open spec fn wf(&self) -> bool {
        &&& self.tsb() + self.mib() + self.nib() + self.sqb() == 63
        &&& self.node_shift() == self.sqb()
        &&& self.machine_shift() == self.sqb() + self.nib()
        &&& self.ts_shift() == self.sqb() + self.nib() + self.mib()
    }

    /// The layout with the given widths (the offsets follow from them).
    pub open spec fn has_widths(&self, t: nat, m: nat, n: nat, s: nat) -> bool {
        &&& self.tsb() == t
        &&& self.mib() == m
        &&& self.nib() == n
        &&& self.sqb() == s
    }

    pub open spec fn spec_max_sequence(&self) -> int {
        field_max(self.sqb())
    }

    pub open spec fn spec_max_machine_id(&self) -> int {
        field_max(self.mib())
    }

    pub open spec fn spec_max_node_id(&self) -> int {
        field_max(self.nib())
    }

    pub open spec fn spec_max_timestamp_millis(&self) -> int {
        field_max(self.tsb())
    }

    /// `(max_sequence + 1) * (max_machine_id + 1) * (max_node_id + 1) * 1000`.
    pub open spec fn spec_max_ids_per_second(&self) -> int {
        (pow2(self.sqb()) * pow2(self.mib()) * pow2(self.nib()) * 1000) as int
    }

    /// Creates a validated `BitLayout`.
    ///
    /// Fails with `InvalidBitLayout` exactly when the four widths do not sum
    /// to 63; `total` is their sum, or `u8::MAX` where the sum overflows a `u8`.
    pub fn new(timestamp_bits: u8, machine_id_bits: u8, node_id_bits: u8, sequence_bits: u8) -> (r:
        Result<Self, SnowflakeError>)
        ensures
            timestamp_bits + machine_id_bits + node_id_bits + sequence_bits == 63 <==> r is Ok,
            r matches Ok(l) ==> l.wf() && l.has_widths(
                timestamp_bits as nat,
                machine_id_bits as nat,
                node_id_bits as nat,
                sequence_bits as nat,
            ),
            r matches Err(e) ==> e == (SnowflakeError::InvalidBitLayout {
                t: timestamp_bits,
                m: machine_id_bits,
                n: node_id_bits,
                s: sequence_bits,
                total: saturated_total(timestamp_bits, machine_id_bits, node_id_bits, sequence_bits),
            }),
    {
        let total: u8 = match timestamp_bits.checked_add(machine_id_bits) {
            Some(a) => match a.checked_add(node_id_bits) {
                Some(b) => match b.checked_add(sequence_bits) {
                    Some(c) => c,
                    None => u8::MAX,
                },
                None => u8::MAX,
            },
            None => u8::MAX,
        };

        if total != ID_BITS {
            return Err(
                SnowflakeError::InvalidBitLayout {
                    t: timestamp_bits,
                    m: machine_id_bits,
                    n: node_id_bits,
                    s: sequence_bits,
                    total,
                },
            );
        }
        let node_id_shift = sequence_bits;
        let machine_id_shift = node_id_shift + node_id_bits;
        let timestamp_shift = machine_id_shift + machine_id_bits;

        Ok(
            Self {
                timestamp_bits,
                machine_id_bits,
                node_id_bits,
                sequence_bits,
                node_id_shift,
                machine_id_shift,
                timestamp_shift,
            },
        )
    }

    /// Returns the number of bits allocated to the timestamp.
    pub fn timestamp_bits(&self) -> (r: u8)
        ensures
            r == self.tsb(),
    {
        self.timestamp_bits
    }

    /// Returns the number of bits allocated to the machine identifier.
    pub fn machine_id_bits(&self) -> (r: u8)
        ensures
            r == self.mib(),
    {
        self.machine_id_bits
    }

    /// Returns the number of bits allocated to the node identifier.
    pub fn node_id_bits(&self) -> (r: u8)
        ensures
            r == self.nib(),
    {
        self.node_id_bits
    }

    /// Returns the number of bits allocated to the sequence counter.
    pub fn sequence_bits(&self) -> (r: u8)
        ensures
            r == self.sqb(),
    {
        self.sequence_bits
    }

    /// Offset of the node field within an ID.
    pub(crate) fn node_id_shift(&self) -> (r: u8)
        ensures
            r == self.node_shift(),
    {
        self.node_id_shift
    }

    /// Offset of the machine field within an ID.
    pub(crate) fn machine_id_shift(&self) -> (r: u8)
        ensures
            r == self.machine_shift(),
    {
        self.machine_id_shift
    }

    /// Offset of the timestamp field within an ID.
    pub(crate) fn timestamp_shift(&self) -> (r: u8)
        ensures
            r == self.ts_shift(),
    {
        self.timestamp_shift
    }

    /// Maximum allowed sequence value (IDs per millisecond - 1).
    ///
    /// The shift is done in a `u32`, so the sequence field must be narrower
    /// than 32 bits.
    pub fn max_sequence(&self) -> (r: u32)
        requires
            self.sqb() < 32,
        ensures
            r == self.spec_max_sequence(),
    {
        let one: u32 = 1;
        let s: u32 = self.sequence_bits as u32;
        proof {
            vstd::bits::lemma_u32_pow2_no_overflow(s as nat);
            vstd::bits::lemma_u32_shl_is_mul(one, s);
        }
        (one << s) - 1
    }

    /// Maximum allowed `machine_id`.
    pub fn max_machine_id(&self) -> (r: i64)
        requires
            self.mib() < 63,
        ensures
            r == self.spec_max_machine_id(),
    {
        low_bits_i64(self.machine_id_bits)
    }

    /// Maximum allowed `node_id`.
    pub fn max_node_id(&self) -> (r: i64)
        requires
            self.nib() < 63,
        ensures
            r == self.spec_max_node_id(),
    {
        low_bits_i64(self.node_id_bits)
    }

    /// Maximum milliseconds the timestamp field can represent.
    pub fn max_timestamp_millis(&self) -> (r: i64)
        requires
            self.tsb() < 63,
        ensures
            r == self.spec_max_timestamp_millis(),
    {
        low_bits_i64(self.timestamp_bits)
    }

    /// Maximum IDs that can be generated per second across all nodes.
    pub fn max_ids_per_second(&self) -> (r: u64)
        requires
            self.sqb() < 32,
            self.mib() < 63,
            self.nib() < 63,
            self.spec_max_ids_per_second() <= u64::MAX,
        ensures
            r == self.spec_max_ids_per_second(),
    {
        proof {
            lemma_field_max_fits(self.mib());
            lemma_field_max_fits(self.nib());
        }
        let s: u64 = self.max_sequence() as u64 + 1;
        let m: u64 = self.max_machine_id() as u64 + 1;
        let n: u64 = self.max_node_id() as u64 + 1;
        proof {
            lemma_pow2_pos(self.sqb());
            lemma_mul_inequality(1, n as int, s * m);
            lemma_mul_inequality(1, 1000, s * m * n);
            lemma_mul_inequality(1, n as int, s as int);
            lemma_mul_inequality(1, m as int, s as int);
            assert(s * m <= s * m * n);
            assert(s * m * n <= s * m * n * 1000);
        }
        s * m * n * 1000
    }
}

/// A field narrower than 63 bits has a maximum that fits in an `i64`.
pub proof fn lemma_field_max_fits(bits: nat)
    requires
        bits < 63,
    ensures
        0 <= field_max(bits) < i64::MAX,
        pow2(bits) <= 0x4000_0000_0000_0000,
{
    lemma_pow2_pos(bits);
    if bits < 62 {
        vstd::arithmetic::power2::lemma_pow2_strictly_increases(bits, 62);
    }
    lemma2_to64();
    vstd::arithmetic::power2::lemma2_to64_rest();
}

/// `2^bits - 1` as an `i64`.
fn low_bits_i64(bits: u8) -> (r: i64)
    requires
        bits < 63,
    ensures
        r == field_max(bits as nat),
{
    let one: u64 = 1;
    let b: u64 = bits as u64;
    proof {
        lemma_u64_pow2_no_overflow(b as nat);
        lemma_u64_shl_is_mul(one, b);
        lemma_field_max_fits(b as nat);
    }
    ((one << b) - 1) as i64
}

impl Default for BitLayout {
    /// The classic Twitter layout: 41 timestamp, 5 machine, 5 node and 12
    /// sequence bits.
    fn default() -> (r: Self)
        ensures
            r.wf(),
            r.has_widths(41, 5, 5, 12),
    {
        Self::new(41, 5, 5, 12).expect("default layout is always valid")
    }
}

} // verus!
