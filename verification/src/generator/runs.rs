//! Laws over runs of generation calls on one generator.
use vstd::prelude::*;
use vstd::arithmetic::power2::{pow2, lemma_pow2_pos};
use vstd::arithmetic::div_mod::{lemma_fundamental_div_mod, lemma_fundamental_div_mod_converse,
    lemma_small_mod};

use std::time::SystemTime;

use crate::encoding::{encode, lemma_decode_encode, lemma_encode_increasing, lemma_id_formula,
    machine_of, node_of, sequence_of, timestamp_fits, timestamp_of};
use crate::error::SnowflakeError;
use crate::generator::SnowflakeIdGenerator;
use crate::generator::generation::{generate_step, lazy_step, strictly_after};
use crate::layout::BitLayout;

verus! {

/// How many sequence numbers the generator's counter runs through.
pub open spec fn capacity(g: SnowflakeIdGenerator) -> int {
    pow2(g.spec_layout().sqb()) as int
}

/// The timestamp after counting on `i` places from `g`'s position, moving
/// one millisecond on each time the counter wraps.
pub open spec fn millis_after(g: SnowflakeIdGenerator, i: int) -> int {
    g.last_millis() + (g.sequence() + i) / capacity(g)
}

/// The sequence number after counting on `i` places from `g`'s position.
pub open spec fn sequence_after(g: SnowflakeIdGenerator, i: int) -> int {
    (g.sequence() + i) % capacity(g)
}

/// Counting on by one in a counter of `q` places.
proof fn lemma_count_step(x: int, q: int)
    requires
        0 <= x,
        0 < q,
    ensures
        ((x % q) + 1) % q == (x + 1) % q,
        (x + 1) / q == x / q + if (x + 1) % q == 0 {
            1int
        } else {
            0int
        },
{
    let a = x / q;
    let b = x % q;
    lemma_fundamental_div_mod(x, q);
    if b + 1 < q {
        lemma_fundamental_div_mod_converse(x + 1, q, a, b + 1);
        lemma_small_mod((b + 1) as nat, q as nat);
    } else {
        assert(x + 1 == (a + 1) * q + 0) by (nonlinear_arith)
            requires
                x == q * a + b,
                b + 1 == q,
        ;
        lemma_fundamental_div_mod_converse(x + 1, q, a + 1, 0);
        lemma_fundamental_div_mod_converse(q, q, 1, 0);
    }
}

/// Counting on: of two counts, the larger is at a later millisecond, or at
/// the same one with a larger sequence number.
proof fn lemma_count_order(x: int, y: int, q: int)
    requires
        0 <= x < y,
        0 < q,
    ensures
        x / q < y / q || (x / q == y / q && x % q < y % q),
{
    lemma_fundamental_div_mod(x, q);
    lemma_fundamental_div_mod(y, q);
    if y / q < x / q {
        assert(q * (y / q) + q <= q * (x / q)) by (nonlinear_arith)
            requires
                y / q < x / q,
                0 < q,
        ;
    }
}

/// A run of `k` `lazy_generate` calls: state `i` goes to state `i + 1`
/// handing out `ids[i]`. The states count on from the first one, the
/// timestamp moving on one millisecond each time the counter wraps, and the
/// `i`-th ID carries the `i`-th position.
pub proof fn lemma_lazy_run(gs: Seq<SnowflakeIdGenerator>, ids: Seq<int>, k: nat)
    requires
        gs.len() == k + 1,
        ids.len() == k,
        gs[0].wf(),
        forall|i: int| 0 <= i < k ==> lazy_step(gs[i], gs[i + 1], #[trigger] ids[i]),
    ensures
        forall|i: int|
            0 <= i <= k ==> {
                &&& (#[trigger] gs[i]).wf()
                &&& gs[i].same_source(gs[0])
                &&& gs[i].last_millis() == millis_after(gs[0], i)
                &&& gs[i].sequence() == sequence_after(gs[0], i)
            },
        forall|i: int|
            0 <= i < k ==> #[trigger] ids[i] == encode(
                gs[0].spec_layout(),
                millis_after(gs[0], i),
                gs[0].machine(),
                gs[0].node(),
                sequence_after(gs[0], i),
            ),
    decreases k,
{
    let g0 = gs[0];
    let q = capacity(g0);
    lemma_pow2_pos(g0.spec_layout().sqb());
    if k == 0 {
        lemma_small_mod(g0.sequence() as nat, q as nat);
        lemma_fundamental_div_mod_converse(g0.sequence(), q, 0, g0.sequence());
        assert(gs[0].last_millis() == millis_after(g0, 0));
    } else {
        let km = (k - 1) as nat;
        let pre = gs.subrange(0, k as int);
        let pre_ids = ids.subrange(0, km as int);
        assert forall|i: int| 0 <= i < km implies lazy_step(pre[i], pre[i + 1], #[trigger] pre_ids[i]) by {
            assert(lazy_step(gs[i], gs[i + 1], ids[i]));
        }
        lemma_lazy_run(pre, pre_ids, km);
        let prev = gs[km as int];
        assert(pre[km as int] == prev);
        assert(lazy_step(prev, gs[k as int], ids[km as int]));
        lemma_count_step(g0.sequence() + km, q);
        assert forall|i: int| 0 <= i <= k implies {
            &&& (#[trigger] gs[i]).wf()
            &&& gs[i].same_source(gs[0])
            &&& gs[i].last_millis() == millis_after(gs[0], i)
            &&& gs[i].sequence() == sequence_after(gs[0], i)
        } by {
            if i < k {
                assert(pre[i] == gs[i]);
            }
        }
        assert forall|i: int| 0 <= i < k implies #[trigger] ids[i] == encode(
            gs[0].spec_layout(),
            millis_after(gs[0], i),
            gs[0].machine(),
            gs[0].node(),
            sequence_after(gs[0], i),
        ) by {
            if i < km {
                assert(pre_ids[i] == ids[i]);
            } else {
                assert(pre[i] == gs[i]);
            }
        }
    }
}

/// The IDs of a run of `lazy_generate` calls decode to the positions they
/// were handed out at, and strictly increase, as long as the timestamps
/// stay within their field.
pub proof fn lemma_lazy_run_ids(gs: Seq<SnowflakeIdGenerator>, ids: Seq<int>, k: nat)
    requires
        gs.len() == k + 1,
        ids.len() == k,
        gs[0].wf(),
        forall|i: int| 0 <= i < k ==> lazy_step(gs[i], gs[i + 1], #[trigger] ids[i]),
        timestamp_fits(gs[0].spec_layout(), gs[0].last_millis()),
        timestamp_fits(gs[0].spec_layout(), millis_after(gs[0], k as int)),
    ensures
        forall|i: int|
            0 <= i < k ==> {
                let l = gs[0].spec_layout();
                &&& timestamp_of(l, #[trigger] ids[i]) == millis_after(gs[0], i)
                &&& machine_of(l, ids[i]) == gs[0].machine()
                &&& node_of(l, ids[i]) == gs[0].node()
                &&& sequence_of(l, ids[i]) == sequence_after(gs[0], i)
            },
        forall|i: int, j: int| 0 <= i < j < k ==> #[trigger] ids[i] < #[trigger] ids[j],
{
    lemma_lazy_run(gs, ids, k);
    let g0 = gs[0];
    let l = g0.spec_layout();
    let q = capacity(g0);
    lemma_pow2_pos(l.sqb());
    assert forall|i: int| 0 <= i <= k implies timestamp_fits(l, #[trigger] millis_after(g0, i))
        && 0 <= sequence_after(g0, i) <= l.spec_max_sequence() by {
        if i < k {
            vstd::arithmetic::div_mod::lemma_div_is_ordered(g0.sequence() + i, g0.sequence() + k, q);
        }
        lemma_fundamental_div_mod(g0.sequence() + i, q);
        vstd::arithmetic::div_mod::lemma_div_pos_is_pos(g0.sequence() + i, q);
    }
    assert forall|i: int| 0 <= i < k implies {
        &&& timestamp_of(l, #[trigger] ids[i]) == millis_after(g0, i)
        &&& machine_of(l, ids[i]) == g0.machine()
        &&& node_of(l, ids[i]) == g0.node()
        &&& sequence_of(l, ids[i]) == sequence_after(g0, i)
    } by {
        assert(timestamp_fits(l, millis_after(g0, i)));
        lemma_decode_encode(l, millis_after(g0, i), g0.machine(), g0.node(), sequence_after(g0, i));
    }
    assert forall|i: int, j: int| 0 <= i < j < k implies #[trigger] ids[i] < #[trigger] ids[j] by {
        assert(timestamp_fits(l, millis_after(g0, i)));
        assert(timestamp_fits(l, millis_after(g0, j)));
        lemma_count_order(g0.sequence() + i, g0.sequence() + j, q);
        lemma_encode_increasing(
            l,
            g0.machine(),
            g0.node(),
            millis_after(g0, i),
            sequence_after(g0, i),
            millis_after(g0, j),
            sequence_after(g0, j),
        );
    }
}

/// A run of `k` successful `generate` calls: each hands out the ID of the
/// state it starts from; until the counter wraps the timestamp stays and the
/// sequence counts up from the first state's; the call that wraps it moves to
/// a later millisecond at sequence 0.
pub proof fn lemma_generate_run(
    gs: Seq<SnowflakeIdGenerator>,
    rs: Seq<Result<i64, SnowflakeError>>,
    k: nat,
)
    requires
        gs.len() == k + 1,
        rs.len() == k,
        gs[0].wf(),
        forall|i: int|
            0 <= i < k ==> generate_step(gs[i], gs[i + 1], #[trigger] rs[i]) && rs[i] is Ok,
    ensures
        forall|i: int|
            0 <= i <= k ==> (#[trigger] gs[i]).wf() && gs[i].same_source(gs[0]),
        forall|i: int|
            0 <= i < k ==> #[trigger] rs[i] == Ok::<i64, SnowflakeError>(gs[i].current_id() as i64),
        forall|i: int|
            0 <= i <= k && gs[0].sequence() + i < capacity(gs[0]) ==> (#[trigger] gs[i]).last_millis()
                == gs[0].last_millis() && gs[i].sequence() == gs[0].sequence() + i,
        gs[0].sequence() + k >= capacity(gs[0]) ==> {
            let w = capacity(gs[0]) - gs[0].sequence();
            &&& gs[w].last_millis() > gs[0].last_millis()
            &&& gs[w].sequence() == 0
        },
    decreases k,
{
    let g0 = gs[0];
    let q = capacity(g0);
    lemma_pow2_pos(g0.spec_layout().sqb());
    if k > 0 {
        let km = (k - 1) as nat;
        let pre = gs.subrange(0, k as int);
        let pre_rs = rs.subrange(0, km as int);
        assert forall|i: int| 0 <= i < km implies generate_step(pre[i], pre[i + 1], #[trigger] pre_rs[i])
            && pre_rs[i] is Ok by {
            assert(generate_step(gs[i], gs[i + 1], rs[i]));
        }
        lemma_generate_run(pre, pre_rs, km);
        let prev = gs[km as int];
        assert(pre[km as int] == prev);
        assert(generate_step(prev, gs[k as int], rs[km as int]));
        prev.lemma_next_sequence();
        assert forall|i: int| 0 <= i <= k implies (#[trigger] gs[i]).wf() && gs[i].same_source(gs[0]) by {
            if i < k {
                assert(pre[i] == gs[i]);
            }
        }
        assert forall|i: int| 0 <= i < k implies #[trigger] rs[i] == Ok::<i64, SnowflakeError>(
            gs[i].current_id() as i64,
        ) by {
            if i < km {
                assert(pre_rs[i] == rs[i]);
                assert(pre[i] == gs[i]);
            }
        }
        assert forall|i: int|
            0 <= i <= k && gs[0].sequence() + i < capacity(gs[0]) implies (#[trigger] gs[i]).last_millis()
            == gs[0].last_millis() && gs[i].sequence() == gs[0].sequence() + i by {
            if i < k {
                assert(pre[i] == gs[i]);
            } else {
                assert(pre[km as int] == gs[km as int]);
            }
        }
        if g0.sequence() + k >= q {
            let w = q - g0.sequence();
            if w < k {
                assert(pre[w] == gs[w]);
            } else {
                assert(pre[km as int] == gs[km as int]);
            }
        }
    }
}

/// A generator freshly built at timestamp `d0` (within its field) hands out
/// first the ID `d0 * 2^(63 - T) + machine * 2^(N + S) + node * 2^S`.
pub proof fn lemma_fresh_first_id(
    g: SnowflakeIdGenerator,
    machine_id: i32,
    node_id: i32,
    layout: BitLayout,
    epoch: SystemTime,
    d0: int,
)
    requires
        g.fresh(machine_id, node_id, layout, epoch, d0),
        timestamp_fits(layout, d0),
    ensures
        g.current_id() == d0 * pow2((63 - layout.tsb()) as nat) + machine_id * pow2(
            layout.nib() + layout.sqb(),
        ) + node_id * pow2(layout.sqb()),
{
    lemma_id_formula(layout, d0, machine_id as int, node_id as int, 0);
}

/// In a run of `k` successful `generate` calls, each call before the
/// counter wraps hands out the ID of the first timestamp and the next
/// sequence number; the call right after the wrap hands out an ID of a
/// later timestamp with sequence 0 (timestamps within their field).
pub proof fn lemma_generate_run_ids(
    gs: Seq<SnowflakeIdGenerator>,
    rs: Seq<Result<i64, SnowflakeError>>,
    k: nat,
)
    requires
        gs.len() == k + 1,
        rs.len() == k,
        gs[0].wf(),
        forall|i: int|
            0 <= i < k ==> generate_step(gs[i], gs[i + 1], #[trigger] rs[i]) && rs[i] is Ok,
    ensures
        forall|i: int|
            0 <= i < k && gs[0].sequence() + i < capacity(gs[0]) ==> #[trigger] rs[i] == Ok::<
                i64,
                SnowflakeError,
            >(
                encode(
                    gs[0].spec_layout(),
                    gs[0].last_millis(),
                    gs[0].machine(),
                    gs[0].node(),
                    gs[0].sequence() + i,
                ) as i64,
            ),
        ({
            let w = capacity(gs[0]) - gs[0].sequence();
            let l = gs[0].spec_layout();
            (w < k && timestamp_fits(l, gs[0].last_millis()) && timestamp_fits(
                l,
                gs[w].last_millis(),
            )) ==> timestamp_of(l, rs[w]->Ok_0 as int) > timestamp_of(l, rs[0]->Ok_0 as int)
                && sequence_of(l, rs[w]->Ok_0 as int) == 0
        }),
{
    lemma_generate_run(gs, rs, k);
    let g0 = gs[0];
    let l = g0.spec_layout();
    let q = capacity(g0);
    let w = q - g0.sequence();
    assert forall|i: int|
        0 <= i < k && gs[0].sequence() + i < capacity(gs[0]) implies #[trigger] rs[i] == Ok::<
        i64,
        SnowflakeError,
    >(encode(l, g0.last_millis(), g0.machine(), g0.node(), g0.sequence() + i) as i64) by {
        assert(gs[i].wf() && gs[i].same_source(g0));
    }
    if w < k && timestamp_fits(l, g0.last_millis()) && timestamp_fits(l, gs[w].last_millis()) {
        assert(gs[w].wf() && gs[w].same_source(g0));
        assert(rs[0] == Ok::<i64, SnowflakeError>(gs[0].current_id() as i64));
        assert(rs[w] == Ok::<i64, SnowflakeError>(gs[w].current_id() as i64));
        lemma_decode_encode(l, g0.last_millis(), g0.machine(), g0.node(), g0.sequence());
        lemma_decode_encode(l, gs[w].last_millis(), g0.machine(), g0.node(), 0);
    }
}

/// Over any run of calls that each keep the source (every generation call
/// does, and `decompose` takes the generator by reference), the epoch,
/// layout, machine and node stay those of the first state.
pub proof fn lemma_run_keeps_source(gs: Seq<SnowflakeIdGenerator>)
    requires
        forall|i: int| 0 <= i < gs.len() - 1 ==> (#[trigger] gs[i + 1]).same_source(gs[i]),
    ensures
        forall|i: int| 0 <= i < gs.len() ==> (#[trigger] gs[i]).same_source(gs[0]),
    decreases gs.len(),
{
    if gs.len() > 1 {
        let pre = gs.drop_last();
        assert forall|i: int| 0 <= i < pre.len() - 1 implies (#[trigger] pre[i + 1]).same_source(
            pre[i],
        ) by {
            assert(pre[i + 1] == gs[i + 1]);
            assert(gs[i + 1].same_source(gs[i]));
        }
        lemma_run_keeps_source(pre);
        assert forall|i: int| 0 <= i < gs.len() implies (#[trigger] gs[i]).same_source(gs[0]) by {
            if i < pre.len() {
                assert(pre[i] == gs[i]);
            } else {
                let j = i - 1;
                assert(0 <= j < gs.len() - 1);
                assert(gs[j + 1].same_source(gs[j]));
                assert(pre[j] == gs[j]);
            }
        }
    }
}

/// `g2` stands at or after `g`'s position: a later millisecond, or the same
/// millisecond at the same or a larger sequence number.
pub open spec fn not_before(g2: SnowflakeIdGenerator, g: SnowflakeIdGenerator) -> bool {
    g.last_millis() < g2.last_millis() || (g.last_millis() == g2.last_millis() && g.sequence()
        <= g2.sequence())
}

/// Along a run of `generate` calls, successful or not, positions never move
/// back and the source never changes.
proof fn lemma_generate_run_order(
    gs: Seq<SnowflakeIdGenerator>,
    rs: Seq<Result<i64, SnowflakeError>>,
    k: nat,
)
    requires
        gs.len() == k + 1,
        rs.len() == k,
        gs[0].wf(),
        forall|i: int| 0 <= i < k ==> generate_step(gs[i], gs[i + 1], #[trigger] rs[i]),
    ensures
        forall|i: int| 0 <= i <= k ==> (#[trigger] gs[i]).wf() && gs[i].same_source(gs[0]),
        forall|i: int, j: int| 0 <= i <= j <= k ==> not_before(#[trigger] gs[j], #[trigger] gs[i]),
    decreases k,
{
    if k > 0 {
        let km = (k - 1) as nat;
        let pre = gs.subrange(0, k as int);
        let pre_rs = rs.subrange(0, km as int);
        assert forall|i: int| 0 <= i < km implies generate_step(pre[i], pre[i + 1], #[trigger] pre_rs[i]) by {
            assert(generate_step(gs[i], gs[i + 1], rs[i]));
        }
        lemma_generate_run_order(pre, pre_rs, km);
        assert(pre[km as int] == gs[km as int]);
        assert(generate_step(gs[km as int], gs[k as int], rs[km as int]));
        gs[km as int].lemma_next_sequence();
        assert(not_before(gs[k as int], gs[km as int]));
        assert forall|i: int| 0 <= i <= k implies (#[trigger] gs[i]).wf() && gs[i].same_source(gs[0]) by {
            if i < k {
                assert(pre[i] == gs[i]);
            }
        }
        assert forall|i: int, j: int| 0 <= i <= j <= k implies not_before(#[trigger] gs[j], #[trigger] gs[i]) by {
            if j < k {
                assert(pre[i] == gs[i] && pre[j] == gs[j]);
            } else if i < k {
                assert(pre[i] == gs[i]);
                assert(not_before(pre[km as int], pre[i]));
            }
        }
    }
}

/// The successful calls of a run of `generate` calls, with failed calls
/// anywhere among them, hand out strictly increasing IDs, so never the same
/// ID twice, as long as the timestamps stay within their field.
pub proof fn lemma_generate_run_distinct(
    gs: Seq<SnowflakeIdGenerator>,
    rs: Seq<Result<i64, SnowflakeError>>,
    k: nat,
)
    requires
        gs.len() == k + 1,
        rs.len() == k,
        gs[0].wf(),
        forall|i: int| 0 <= i < k ==> generate_step(gs[i], gs[i + 1], #[trigger] rs[i]),
        timestamp_fits(gs[0].spec_layout(), gs[0].last_millis()),
        timestamp_fits(gs[0].spec_layout(), gs[k as int].last_millis()),
    ensures
        forall|i: int, j: int|
            0 <= i < j < k && rs[i] is Ok && rs[j] is Ok ==> (#[trigger] rs[i])->Ok_0 < (
            #[trigger] rs[j])->Ok_0,
{
    lemma_generate_run_order(gs, rs, k);
    let g0 = gs[0];
    let l = g0.spec_layout();
    assert forall|i: int, j: int|
        0 <= i < j < k && rs[i] is Ok && rs[j] is Ok implies (#[trigger] rs[i])->Ok_0 < (
        #[trigger] rs[j])->Ok_0 by {
        let a = gs[i];
        let a2 = gs[i + 1];
        let b = gs[j];
        assert(generate_step(a, a2, rs[i]));
        assert(generate_step(b, gs[j + 1], rs[j]));
        a.lemma_next_sequence();
        assert(not_before(a2, gs[0]) && not_before(gs[k as int], a2));
        assert(not_before(b, a2));
        assert(not_before(gs[k as int], b) && not_before(a, gs[0]));
        assert(a.wf() && a.same_source(g0) && b.wf() && b.same_source(g0));
        assert(strictly_after(b.last_millis(), b.sequence(), a.last_millis(), a.sequence()));
        lemma_encode_increasing(
            l,
            g0.machine(),
            g0.node(),
            a.last_millis(),
            a.sequence(),
            b.last_millis(),
            b.sequence(),
        );
    }
}

} // verus!
