use vstd::prelude::*;
use vstd::arithmetic::power2::{pow2, lemma_pow2_pos};

use std::time::SystemTime;

use crate::encoding::{encode, fields_fit, lemma_decode_encode, lemma_encode_injective, machine_of,
    node_of, timestamp_fits};
use crate::error::SnowflakeError;
use crate::generator::SnowflakeIdGenerator;
use crate::generator::creation::{checkable, id_error};
use crate::layout::BitLayout;
use crate::utils::{reading_at, unix_epoch};

verus! {

/// The ID a bucket hands out at position `k` of its output: positions run
/// through a millisecond's IDs from the largest sequence number down, one
/// millisecond after another.
pub open spec fn id_at_rank(layout: BitLayout, machine: int, node: int, k: int) -> int {
    let d = pow2(layout.sqb()) as int;
    encode(layout, k / d, machine, node, d - 1 - k % d)
}

/// One `get_id` call, taking the bucket from `b` to `after` and handing out
/// `id`: the ID at the bucket's position, the position moving on by one.
pub open spec fn get_id_step(b: SnowflakeIdBucket, after: SnowflakeIdBucket, id: int) -> bool {
    &&& after.wf()
    &&& after.gen_state().same_source(b.gen_state())
    &&& id == id_at_rank(b.gen_state().spec_layout(), b.gen_state().machine(), b.gen_state().node(), b.rank())
    &&& after.rank() == b.rank() + 1
}

/// A buffered wrapper around [`SnowflakeIdGenerator`]: it generates a whole
/// millisecond's worth of IDs at once (without reading the clock) and hands
/// them out from the end of the buffer.
#[derive(Clone, Debug)]
pub struct SnowflakeIdBucket {
    generator: SnowflakeIdGenerator,
    buffer: Vec<i64>,
}

impl SnowflakeIdBucket {
    /// The underlying generator.
    pub closed spec fn gen_state(&self) -> SnowflakeIdGenerator {
        self.generator
    }

    /// The buffered IDs; the last one is handed out next.
    pub closed spec fn pending(&self) -> Seq<i64> {
        self.buffer@
    }

    /// The generator always sits at the start of a millisecond, and the
    /// buffer holds the first IDs of the millisecond before it, in order.
    pub open spec fn wf(&self) -> bool {
        let g = self.gen_state();
        let l = g.spec_layout();
        &&& g.wf()
        &&& g.sequence() == 0
        &&& self.pending().len() < pow2(l.sqb())
        &&& forall|i: int|
            0 <= i < self.pending().len() ==> #[trigger] self.pending()[i] == encode(
                l,
                g.last_millis() - 1,
                g.machine(),
                g.node(),
                i,
            )
    }

    /// How many IDs the bucket's output has run through, counted from the
    /// generator's epoch: the next `get_id` hands out the ID at this position.
    pub open spec fn rank(&self) -> int {
        self.gen_state().last_millis() * pow2(self.gen_state().spec_layout().sqb()) - self.pending().len()
    }

    /// Built on `g`, with an empty buffer.
    pub open spec fn fresh_on(&self, g: SnowflakeIdGenerator) -> bool {
        &&& self.wf()
        &&& self.gen_state() == g
        &&& self.pending().len() == 0
    }

    /// Constructs a bucket using the UNIX epoch and default [`BitLayout`].
    pub fn new(machine_id: i32, node_id: i32) -> (r: Result<Self, SnowflakeError>)
        ensures
            r matches Ok(b) ==> b.wf() && b.pending().len() == 0 && b.gen_state().spec_layout().has_widths(
                41,
                5,
                5,
                12,
            ) && b.gen_state().machine() == machine_id && b.gen_state().node() == node_id,
            !(0 <= machine_id <= 31) ==> r == Err::<Self, SnowflakeError>(
                SnowflakeError::MachineIdOutOfRange { given: machine_id as i64, max: 31 },
            ),
            0 <= machine_id <= 31 && !(0 <= node_id <= 31) ==> r == Err::<Self, SnowflakeError>(
                SnowflakeError::NodeIdOutOfRange { given: node_id as i64, max: 31 },
            ),
            0 <= machine_id <= 31 && 0 <= node_id <= 31 ==> (r is Ok || r == Err::<
                Self,
                SnowflakeError,
            >(SnowflakeError::ClockBeforeEpoch)),
            0 <= machine_id <= 31 && 0 <= node_id <= 31 ==> exists|now: SystemTime, epoch: SystemTime|
                match #[trigger] reading_at(now, epoch) {
                    Ok(ms) => r matches Ok(b) && b.gen_state().spec_epoch() == epoch
                        && b.gen_state().last_millis() == ms,
                    Err(e) => r == Err::<Self, SnowflakeError>(e),
                },
    {
        Self::with_epoch(machine_id, node_id, unix_epoch())
    }

    /// Constructs a bucket using a custom epoch and default [`BitLayout`].
    pub fn with_epoch(machine_id: i32, node_id: i32, epoch: SystemTime) -> (r: Result<
        Self,
        SnowflakeError,
    >)
        ensures
            r matches Ok(b) ==> b.wf() && b.pending().len() == 0 && b.gen_state().spec_layout().has_widths(
                41,
                5,
                5,
                12,
            ) && b.gen_state().spec_epoch() == epoch && b.gen_state().machine() == machine_id
                && b.gen_state().node() == node_id,
            !(0 <= machine_id <= 31) ==> r == Err::<Self, SnowflakeError>(
                SnowflakeError::MachineIdOutOfRange { given: machine_id as i64, max: 31 },
            ),
            0 <= machine_id <= 31 && !(0 <= node_id <= 31) ==> r == Err::<Self, SnowflakeError>(
                SnowflakeError::NodeIdOutOfRange { given: node_id as i64, max: 31 },
            ),
            0 <= machine_id <= 31 && 0 <= node_id <= 31 ==> (r is Ok || r == Err::<
                Self,
                SnowflakeError,
            >(SnowflakeError::ClockBeforeEpoch)),
            0 <= machine_id <= 31 && 0 <= node_id <= 31 ==> exists|now: SystemTime|
                match #[trigger] reading_at(now, epoch) {
                    Ok(ms) => r matches Ok(b) && b.gen_state().last_millis() == ms,
                    Err(e) => r == Err::<Self, SnowflakeError>(e),
                },
    {
        let generator = SnowflakeIdGenerator::with_epoch(machine_id, node_id, epoch)?;
        Ok(Self { generator, buffer: Vec::new() })
    }

    /// Constructs a bucket with a fully custom [`BitLayout`] and epoch.
    pub fn with_layout_and_epoch(
        machine_id: i32,
        node_id: i32,
        layout: BitLayout,
        epoch: SystemTime,
    ) -> (r: Result<Self, SnowflakeError>)
        requires
            checkable(layout, machine_id),
        ensures
            r matches Ok(b) ==> b.wf() && b.pending().len() == 0 && b.gen_state().spec_layout()
                == layout && b.gen_state().spec_epoch() == epoch && b.gen_state().machine()
                == machine_id && b.gen_state().node() == node_id,
            id_error(layout, machine_id, node_id) matches Some(e) ==> r == Err::<
                Self,
                SnowflakeError,
            >(e),
            id_error(layout, machine_id, node_id) is None ==> (r is Ok || r == Err::<
                Self,
                SnowflakeError,
            >(SnowflakeError::ClockBeforeEpoch)),
            id_error(layout, machine_id, node_id) is None ==> exists|now: SystemTime|
                match #[trigger] reading_at(now, epoch) {
                    Ok(ms) => r matches Ok(b) && b.gen_state().last_millis() == ms,
                    Err(e) => r == Err::<Self, SnowflakeError>(e),
                },
    {
        let generator = SnowflakeIdGenerator::with_layout_and_epoch(
            machine_id,
            node_id,
            layout,
            epoch,
        )?;
        Ok(Self { generator, buffer: Vec::new() })
    }

    /// Returns the next ID from the buffer, refilling it when empty.
    ///
    /// Successive calls hand out the IDs at successive positions of the
    /// bucket's output (see [`id_at_rank`]).
    pub fn get_id(&mut self) -> (r: i64)
        requires
            old(self).wf(),
            old(self).gen_state().can_generate(),
            old(self).pending().len() == 0 ==> old(self).gen_state().last_millis() < i64::MAX,
        ensures
            final(self).wf(),
            final(self).gen_state().same_source(old(self).gen_state()),
            r == id_at_rank(
                old(self).gen_state().spec_layout(),
                old(self).gen_state().machine(),
                old(self).gen_state().node(),
                old(self).rank(),
            ),
            final(self).rank() == old(self).rank() + 1,
            get_id_step(*old(self), *final(self), r as int),
            old(self).pending().len() > 0 ==> r == old(self).pending().last(),
            old(self).pending().len() > 0 ==> final(self).pending() == old(self).pending().drop_last(),
            old(self).pending().len() > 0 ==> final(self).gen_state() == old(self).gen_state(),
            old(self).pending().len() == 0 ==> final(self).gen_state().last_millis() == old(self).gen_state().last_millis() + 1,
    {
        let ghost before = *self;
        if self.buffer.is_empty() {
            self.refill();
        }
        let ghost filled = *self;
        let r = self.buffer.pop().unwrap();
        proof {
            let g = filled.gen_state();
            let l = g.spec_layout();
            let d = pow2(l.sqb()) as int;
            let len = filled.pending().len() as int;
            lemma_pow2_pos(l.sqb());
            // the handed-out ID sits at position `k = (last - 1) * d + (d - len)`
            let k = before.rank();
            assert(k == (g.last_millis() - 1) * d + (d - len)) by (nonlinear_arith)
                requires
                    k == before.gen_state().last_millis() * d - before.pending().len(),
                    before.pending().len() == 0 ==> g.last_millis() == before.gen_state().last_millis()
                        + 1 && len == d,
                    before.pending().len() > 0 ==> g.last_millis() == before.gen_state().last_millis()
                        && len == before.pending().len(),
            ;
            vstd::arithmetic::div_mod::lemma_fundamental_div_mod_converse(
                k,
                d,
                g.last_millis() - 1,
                d - len,
            );
            assert(r == filled.pending()[len - 1]);
            assert(self.rank() == k + 1) by (nonlinear_arith)
                requires
                    self.rank() == g.last_millis() * d - (len - 1),
                    k == (g.last_millis() - 1) * d + (d - len),
            ;
        }
        r
    }

    /// Returns a reference to the underlying [`SnowflakeIdGenerator`].
    pub fn generator(&self) -> (r: &SnowflakeIdGenerator)
        ensures
            *r == self.gen_state(),
    {
        &self.generator
    }

    /// Fills the empty buffer with the IDs of the generator's current
    /// millisecond, sequence 0 first, which moves the generator to the next
    /// millisecond.
    fn refill(&mut self)
        requires
            old(self).wf(),
            old(self).gen_state().can_generate(),
            old(self).pending().len() == 0,
            old(self).gen_state().last_millis() < i64::MAX,
        ensures
            final(self).gen_state().wf(),
            final(self).gen_state().same_source(old(self).gen_state()),
            final(self).gen_state().sequence() == 0,
            final(self).gen_state().last_millis() == old(self).gen_state().last_millis() + 1,
            final(self).pending().len() == pow2(old(self).gen_state().spec_layout().sqb()),
            forall|i: int|
                0 <= i < final(self).pending().len() ==> #[trigger] final(self).pending()[i]
                    == encode(
                    old(self).gen_state().spec_layout(),
                    old(self).gen_state().last_millis(),
                    old(self).gen_state().machine(),
                    old(self).gen_state().node(),
                    i,
                ),
    {
        let ghost g0 = self.generator;
        let max_seq = self.generator.layout().max_sequence() as usize;
        proof {
            vstd::bits::lemma_u32_pow2_no_overflow(g0.spec_layout().sqb());
        }
        self.buffer.reserve(max_seq + 1);
        let mut i: usize = 0;
        while i <= max_seq
            invariant
                g0.wf(),
                g0.can_generate(),
                g0.sequence() == 0,
                g0.last_millis() < i64::MAX,
                max_seq == g0.spec_layout().spec_max_sequence(),
                max_seq < u32::MAX,
                i <= max_seq + 1,
                self.generator.wf(),
                self.generator.same_source(g0),
                i <= max_seq ==> self.generator.sequence() == i && self.generator.last_millis()
                    == g0.last_millis(),
                i == max_seq + 1 ==> self.generator.sequence() == 0
                    && self.generator.last_millis() == g0.last_millis() + 1,
                self.buffer@.len() == i,
                forall|j: int|
                    0 <= j < i ==> #[trigger] self.buffer@[j] == encode(
                        g0.spec_layout(),
                        g0.last_millis(),
                        g0.machine(),
                        g0.node(),
                        j,
                    ),
            decreases max_seq + 1 - i,
        {
            proof {
                self.generator.lemma_next_sequence();
            }
            let id = self.generator.lazy_generate();
            self.buffer.push(id);
            i = i + 1;
        }
    }
}

/// A bucket never hands out the same ID twice: IDs at different positions
/// of its output differ, as long as their timestamps fit their field.
pub proof fn lemma_bucket_ids_distinct(layout: BitLayout, machine: int, node: int, k1: int, k2: int)
    requires
        layout.wf(),
        fields_fit(layout, machine, node, 0),
        k1 != k2,
        timestamp_fits(layout, k1 / (pow2(layout.sqb()) as int)),
        timestamp_fits(layout, k2 / (pow2(layout.sqb()) as int)),
    ensures
        id_at_rank(layout, machine, node, k1) != id_at_rank(layout, machine, node, k2),
{
    let d = pow2(layout.sqb()) as int;
    lemma_pow2_pos(layout.sqb());
    let t1 = k1 / d;
    let t2 = k2 / d;
    let q1 = d - 1 - k1 % d;
    let q2 = d - 1 - k2 % d;
    vstd::arithmetic::div_mod::lemma_fundamental_div_mod(k1, d);
    vstd::arithmetic::div_mod::lemma_fundamental_div_mod(k2, d);
    if id_at_rank(layout, machine, node, k1) == id_at_rank(layout, machine, node, k2) {
        lemma_encode_injective(layout, t1, machine, node, q1, t2, machine, node, q2);
        assert(k1 == k2);
    }
}

/// A run of `k` `get_id` calls: bucket `i` goes to bucket `i + 1` handing
/// out `ids[i]`. The source never changes, and the `i`-th ID is the one at
/// the `i`-th position after the first bucket's.
pub proof fn lemma_bucket_run(bs: Seq<SnowflakeIdBucket>, ids: Seq<int>, k: nat)
    requires
        bs.len() == k + 1,
        ids.len() == k,
        bs[0].wf(),
        forall|i: int| 0 <= i < k ==> get_id_step(bs[i], bs[i + 1], #[trigger] ids[i]),
    ensures
        forall|i: int|
            0 <= i <= k ==> {
                &&& (#[trigger] bs[i]).wf()
                &&& bs[i].gen_state().same_source(bs[0].gen_state())
                &&& bs[i].rank() == bs[0].rank() + i
            },
        forall|i: int|
            0 <= i < k ==> #[trigger] ids[i] == id_at_rank(
                bs[0].gen_state().spec_layout(),
                bs[0].gen_state().machine(),
                bs[0].gen_state().node(),
                bs[0].rank() + i,
            ),
    decreases k,
{
    if k > 0 {
        let km = (k - 1) as nat;
        let pre = bs.subrange(0, k as int);
        let pre_ids = ids.subrange(0, km as int);
        assert forall|i: int| 0 <= i < km implies get_id_step(pre[i], pre[i + 1], #[trigger] pre_ids[i]) by {
            assert(get_id_step(bs[i], bs[i + 1], ids[i]));
        }
        lemma_bucket_run(pre, pre_ids, km);
        assert(pre[km as int] == bs[km as int]);
        assert(get_id_step(bs[km as int], bs[k as int], ids[km as int]));
        assert forall|i: int| 0 <= i <= k implies {
            &&& (#[trigger] bs[i]).wf()
            &&& bs[i].gen_state().same_source(bs[0].gen_state())
            &&& bs[i].rank() == bs[0].rank() + i
        } by {
            if i < k {
                assert(pre[i] == bs[i]);
            }
        }
        assert forall|i: int| 0 <= i < k implies #[trigger] ids[i] == id_at_rank(
            bs[0].gen_state().spec_layout(),
            bs[0].gen_state().machine(),
            bs[0].gen_state().node(),
            bs[0].rank() + i,
        ) by {
            if i < km {
                assert(pre_ids[i] == ids[i]);
            }
        }
    }
}

/// The IDs of a run of `get_id` calls are pairwise distinct and each
/// decodes to the bucket's machine and node, as long as the timestamps of
/// their positions stay within their field.
pub proof fn lemma_bucket_run_ids(bs: Seq<SnowflakeIdBucket>, ids: Seq<int>, k: nat)
    requires
        bs.len() == k + 1,
        ids.len() == k,
        bs[0].wf(),
        forall|i: int| 0 <= i < k ==> get_id_step(bs[i], bs[i + 1], #[trigger] ids[i]),
        bs[0].rank() >= 0,
        k > 0 ==> timestamp_fits(
            bs[0].gen_state().spec_layout(),
            (bs[0].rank() + k - 1) / (pow2(bs[0].gen_state().spec_layout().sqb()) as int),
        ),
    ensures
        forall|i: int|
            0 <= i < k ==> machine_of(bs[0].gen_state().spec_layout(), #[trigger] ids[i])
                == bs[0].gen_state().machine() && node_of(bs[0].gen_state().spec_layout(), ids[i])
                == bs[0].gen_state().node(),
        forall|i: int, j: int| 0 <= i < j < k ==> #[trigger] ids[i] != #[trigger] ids[j],
{
    lemma_bucket_run(bs, ids, k);
    let g = bs[0].gen_state();
    let l = g.spec_layout();
    let d = pow2(l.sqb()) as int;
    let r0 = bs[0].rank();
    lemma_pow2_pos(l.sqb());
    assert forall|i: int| 0 <= i < k implies timestamp_fits(l, #[trigger] ((r0 + i) / d))
        && 0 <= d - 1 - (r0 + i) % d < d by {
        vstd::arithmetic::div_mod::lemma_div_is_ordered(r0 + i, r0 + k - 1, d);
        vstd::arithmetic::div_mod::lemma_div_pos_is_pos(r0 + i, d);
        vstd::arithmetic::div_mod::lemma_fundamental_div_mod(r0 + i, d);
    }
    assert forall|i: int| 0 <= i < k implies machine_of(l, #[trigger] ids[i]) == g.machine() && node_of(
        l,
        ids[i],
    ) == g.node() by {
        assert(timestamp_fits(l, (r0 + i) / d));
        lemma_decode_encode(l, (r0 + i) / d, g.machine(), g.node(), d - 1 - (r0 + i) % d);
    }
    assert forall|i: int, j: int| 0 <= i < j < k implies #[trigger] ids[i] != #[trigger] ids[j] by {
        assert(timestamp_fits(l, (r0 + i) / d));
        assert(timestamp_fits(l, (r0 + j) / d));
        lemma_bucket_ids_distinct(l, g.machine(), g.node(), r0 + i, r0 + j);
    }
}

/// `id` is among `ids`.
pub open spec fn handed_out(ids: Seq<int>, id: int) -> bool {
    exists|i: int| 0 <= i < ids.len() && #[trigger] ids[i] == id
}

/// From a fresh bucket built at timestamp `d0` (position `d0 * 2^S`),
/// `j * 2^S` calls hand out, millisecond by millisecond from `d0`, every
/// sequence number of each millisecond from the largest down: exactly the
/// IDs of the milliseconds `d0 .. d0 + j` at every sequence number.
pub proof fn lemma_fresh_bucket_batches(
    layout: BitLayout,
    machine: int,
    node: int,
    d0: int,
    j: nat,
    ids: Seq<int>,
)
    requires
        ids.len() == j * pow2(layout.sqb()),
        forall|i: int|
            0 <= i < ids.len() ==> #[trigger] ids[i] == id_at_rank(
                layout,
                machine,
                node,
                d0 * pow2(layout.sqb()) + i,
            ),
    ensures
        forall|i: int|
            0 <= i < ids.len() ==> #[trigger] ids[i] == encode(
                layout,
                d0 + i / (pow2(layout.sqb()) as int),
                machine,
                node,
                pow2(layout.sqb()) - 1 - i % (pow2(layout.sqb()) as int),
            ),
        forall|t: int, s: int|
            d0 <= t < d0 + j && 0 <= s < pow2(layout.sqb()) ==> #[trigger] handed_out(
                ids,
                encode(layout, t, machine, node, s),
            ),
{
    let q = pow2(layout.sqb()) as int;
    lemma_pow2_pos(layout.sqb());
    assert forall|i: int| 0 <= i < ids.len() implies #[trigger] ids[i] == encode(
        layout,
        d0 + i / q,
        machine,
        node,
        q - 1 - i % q,
    ) by {
        vstd::arithmetic::div_mod::lemma_fundamental_div_mod(i, q);
        let a = i / q;
        let b = i % q;
        assert(d0 * q + i == (d0 + a) * q + b) by (nonlinear_arith)
            requires
                i == q * a + b,
        ;
        vstd::arithmetic::div_mod::lemma_fundamental_div_mod_converse(d0 * q + i, q, d0 + a, b);
    }
    assert forall|t: int, s: int|
        d0 <= t < d0 + j && 0 <= s < pow2(layout.sqb()) implies #[trigger] handed_out(
            ids,
            encode(layout, t, machine, node, s),
        ) by {
        let i = (t - d0) * q + (q - 1 - s);
        assert(0 <= i < j * q) by (nonlinear_arith)
            requires
                i == (t - d0) * q + (q - 1 - s),
                d0 <= t < d0 + j,
                0 <= s < q,
        ;
        vstd::arithmetic::div_mod::lemma_fundamental_div_mod_converse(i, q, t - d0, q - 1 - s);
        assert(i / q == t - d0 && i % q == q - 1 - s);
        assert(ids[i] == encode(layout, d0 + i / q, machine, node, q - 1 - i % q));
        assert(ids[i] == encode(layout, t, machine, node, s));
        assert(0 <= i < ids.len());
    }
}

} // verus!
