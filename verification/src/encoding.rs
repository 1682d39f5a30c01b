//! How the four fields of an ID are packed into, and read back from, an `i64`.
use vstd::prelude::*;
use vstd::arithmetic::power2::{pow2, lemma_pow2_pos, lemma_pow2_adds, lemma2_to64, lemma2_to64_rest,
    lemma_pow2_strictly_increases};
use vstd::arithmetic::div_mod::{lemma_fundamental_div_mod, lemma_fundamental_div_mod_converse,
    lemma_hoist_over_denominator, lemma_mod_multiples_vanish, lemma_small_mod, lemma_mul_mod_noop_left,
    lemma_add_mod_noop, lemma_mod_twice};
use vstd::arithmetic::mul::{lemma_mul_is_associative, lemma_mul_is_commutative};
use vstd::bits::{lemma_u64_shl_is_mul, lemma_u64_pow2_no_overflow, lemma_u64_shr_is_div,
    lemma_u64_low_bits_mask_is_mod, low_bits_mask};

use crate::layout::BitLayout;

verus! {

/// `2^64`, the number of distinct bit patterns of a 64-bit word.
pub open spec fn word_span() -> int {
    0x1_0000_0000_0000_0000int
}

/// The `i64` whose two's-complement bit pattern is `x mod 2^64`.
pub open spec fn wrap_i64(x: int) -> int {
    let r = x % word_span();
    if r < 0x8000_0000_0000_0000int {
        r
    } else {
        r - word_span()
    }
}

/// The four fields placed at the layout's offsets, as an exact integer.
pub open spec fn pack(layout: BitLayout, ts: int, machine: int, node: int, seq: int) -> int {
    ts * pow2(layout.ts_shift()) + machine * pow2(layout.machine_shift()) + node * pow2(
        layout.node_shift(),
    ) + seq
}

/// The ID with the given fields: their packing, kept to the 64 bits of an
/// `i64`.
pub open spec fn encode(layout: BitLayout, ts: int, machine: int, node: int, seq: int) -> int {
    wrap_i64(pack(layout, ts, machine, node, seq))
}

/// Machine, node and sequence each lie within their field.
pub open spec fn fields_fit(layout: BitLayout, machine: int, node: int, seq: int) -> bool {
    &&& 0 <= machine <= layout.spec_max_machine_id()
    &&& 0 <= node <= layout.spec_max_node_id()
    &&& 0 <= seq <= layout.spec_max_sequence()
}

/// The timestamp lies within its field.
pub open spec fn timestamp_fits(layout: BitLayout, ts: int) -> bool {
    0 <= ts <= layout.spec_max_timestamp_millis()
}

/// The timestamp an ID carries: the ID shifted right (rounding down) past
/// the lower fields.
pub open spec fn timestamp_of(layout: BitLayout, id: int) -> int {
    id / (pow2(layout.ts_shift()) as int)
}

/// The machine field of an ID.
pub open spec fn machine_of(layout: BitLayout, id: int) -> int {
    (id / (pow2(layout.machine_shift()) as int)) % (pow2(layout.mib()) as int)
}

/// The node field of an ID.
pub open spec fn node_of(layout: BitLayout, id: int) -> int {
    (id / (pow2(layout.node_shift()) as int)) % (pow2(layout.nib()) as int)
}

/// The sequence field of an ID.
pub open spec fn sequence_of(layout: BitLayout, id: int) -> int {
    id % (pow2(layout.sqb()) as int)
}

// ---------------------------------------------------------------------
// Word-level facts
// ---------------------------------------------------------------------

proof fn lemma_one_shl(k: u64)
    requires
        k < 64,
    ensures
        (1u64 << k) as int == pow2(k as nat),
        pow2(k as nat) < word_span(),
{
    lemma_u64_pow2_no_overflow(k as nat);
    lemma_u64_shl_is_mul(1, k);
}

/// Shifting `hi` left by `k` and or-ing in `lo < 2^k` adds `lo` to
/// `hi * 2^k` kept to 64 bits.
proof fn lemma_shl_or(hi: u64, lo: u64, k: u64)
    requires
        k < 64,
        lo < pow2(k as nat),
    ensures
        ((hi << k) | lo) as int == (hi as int * pow2(k as nat)) % word_span() + lo,
{
    lemma_one_shl(k);
    assert(((hi << k) | lo) as int == (hi << k) as int + lo as int) by (bit_vector)
        requires
            k < 64,
            lo < (1u64 << k),
    ;
    assert((hi << k) as int == ((hi as int) * ((1u64 << k) as int)) % 0x1_0000_0000_0000_0000int)
        by (bit_vector)
        requires
            k < 64,
    ;
}

/// The bits of an `i64` read as a `u64`.
proof fn lemma_i64_bits(x: i64)
    ensures
        (x as u64) as int == (x as int) % word_span(),
        x >= 0 ==> (x as u64) as int == x,
        x < 0 ==> (x as u64) as int == x + word_span(),
{
    assert(x >= 0 ==> (x as u64) as int == x as int) by (bit_vector);
    assert(x < 0 ==> (x as u64) as int == x as int + 0x1_0000_0000_0000_0000int) by (bit_vector);
    if x >= 0 {
        lemma_small_mod(x as nat, word_span() as nat);
    } else {
        lemma_fundamental_div_mod_converse(x as int, word_span(), -1, x + word_span());
    }
}

/// A `u64` bit pattern read as an `i64`.
proof fn lemma_u64_as_i64(x: u64)
    ensures
        (x as i64) as int == wrap_i64(x as int),
{
    assert(x < 0x8000_0000_0000_0000 ==> (x as i64) as int == x as int) by (bit_vector);
    assert(x >= 0x8000_0000_0000_0000 ==> (x as i64) as int == x as int - 0x1_0000_0000_0000_0000int)
        by (bit_vector);
    lemma_small_mod(x as nat, word_span() as nat);
}

/// The arithmetic right shift of an `i64` rounds the quotient down.
pub proof fn lemma_ashr_is_floor_div(x: i64, k: u64)
    requires
        k < 64,
    ensures
        (x >> k) as int == x as int / (pow2(k as nat) as int),
{
    lemma_pow2_pos(k as nat);
    let d = pow2(k as nat) as int;
    if x >= 0 {
        assert((x >> k) as int == ((x as u64) >> k) as int) by (bit_vector)
            requires
                x >= 0,
                k < 64,
        ;
        lemma_u64_shr_is_div(x as u64, k);
        lemma_i64_bits(x);
    } else {
        assert((x >> k) as int == -1 - (((!x) as u64) >> k) as int) by (bit_vector)
            requires
                x < 0,
                k < 64,
        ;
        assert((!x) as int == -1 - x) by (bit_vector);
        let y: i64 = !x;
        lemma_u64_shr_is_div(y as u64, k);
        lemma_i64_bits(y);
        // -1 - y/d == (-1 - y)/d for y >= 0
        let q = (y as int) / d;
        let r = (y as int) % d;
        lemma_fundamental_div_mod(y as int, d);
        assert(x as int == (-1 - q) * d + (d - 1 - r)) by (nonlinear_arith)
            requires
                y as int == d * q + r,
                y as int == -1 - x,
        ;
        lemma_fundamental_div_mod_converse(x as int, d, -1 - q, d - 1 - r);
    }
}

/// Shifting the bits of an `i64` right and masking to `w` bits reads the
/// `w`-bit field that starts at bit `k`.
pub proof fn lemma_field_bits(x: i64, k: u64, w: nat)
    requires
        k < 64,
        w < 64,
        k + w <= 64,
    ensures
        (((x as u64) >> k) & (low_bits_mask(w) as u64)) as int == (x as int / (pow2(k as nat) as int))
            % (pow2(w) as int),
{
    let u = x as u64;
    lemma_u64_shr_is_div(u, k);
    lemma_u64_low_bits_mask_is_mod(u >> k, w);
    lemma_u64_pow2_no_overflow(w);
    lemma_i64_bits(x);
    let c: int = if x >= 0 { 0 } else { 1 };
    assert(u as int == x + c * word_span());
    lemma_shifted_field_ignores_wrap(x as int, c, k as nat, w);
}

/// Adding a multiple of `2^64` does not change the `w`-bit field at `k`.
proof fn lemma_shifted_field_ignores_wrap(v: int, c: int, k: nat, w: nat)
    requires
        k + w <= 64,
    ensures
        ((v + c * word_span()) / (pow2(k) as int)) % (pow2(w) as int) == (v / (pow2(k) as int)) % (
        pow2(w) as int),
{
    lemma_pow2_pos(k);
    lemma_pow2_pos(w);
    let rest = (64 - k - w) as nat;
    lemma_pow2_pos(rest);
    lemma_pow2_adds(k, (64 - k) as nat);
    lemma_pow2_adds(w, rest);
    lemma2_to64();
    lemma2_to64_rest();
    assert(pow2(64) == word_span());
    let j = c * (pow2(w) * pow2(rest));
    assert(c * word_span() == j * pow2(k)) by {
        lemma_mul_is_associative(c, pow2(w) as int, pow2(rest) as int);
        lemma_mul_is_commutative(j, pow2(k) as int);
        lemma_mul_is_associative(c, (pow2(w) * pow2(rest)) as int, pow2(k) as int);
        lemma_mul_is_commutative(pow2(k) as int, (pow2(w) * pow2(rest)) as int);
    }
    lemma_hoist_over_denominator(v, j, pow2(k));
    let q = v / (pow2(k) as int);
    assert(j == pow2(w) * (c * pow2(rest))) by {
        lemma_mul_is_associative(c, pow2(w) as int, pow2(rest) as int);
        lemma_mul_is_commutative(c, pow2(w) as int);
        lemma_mul_is_associative(pow2(w) as int, c, pow2(rest) as int);
    }
    lemma_mod_multiples_vanish(c * pow2(rest), q, pow2(w) as int);
}

// ---------------------------------------------------------------------
// Packing
// ---------------------------------------------------------------------

/// The packing regrouped by field: `((ts * 2^M + machine) * 2^N + node) * 2^S + seq`.
proof fn lemma_pack_nested(layout: BitLayout, ts: int, machine: int, node: int, seq: int)
    requires
        layout.wf(),
    ensures
        pack(layout, ts, machine, node, seq) == ((ts * pow2(layout.mib()) + machine) * pow2(
            layout.nib(),
        ) + node) * pow2(layout.sqb()) + seq,
        pack(layout, ts, machine, node, seq) == (ts * pow2(layout.mib()) + machine) * pow2(
            layout.machine_shift(),
        ) + node * pow2(layout.node_shift()) + seq,
{
    let s = pow2(layout.sqb()) as int;
    let n = pow2(layout.nib()) as int;
    let m = pow2(layout.mib()) as int;
    lemma_pow2_adds(layout.sqb(), layout.nib());
    lemma_pow2_adds(layout.sqb() + layout.nib(), layout.mib());
    assert(pow2(layout.machine_shift()) == s * n) by {
        lemma_mul_is_commutative(s, n);
    }
    assert(pow2(layout.ts_shift()) == (s * n) * m) by {
        lemma_mul_is_commutative(s * n, m);
    }
    assert(((ts * m + machine) * n + node) * s + seq == ts * ((s * n) * m) + machine * (s * n) + node
        * s + seq) by (nonlinear_arith);
    assert((ts * m + machine) * (s * n) == ts * ((s * n) * m) + machine * (s * n)) by (nonlinear_arith);
}

/// With the lower fields in range, everything below the timestamp stays
/// under `2^(timestamp offset)`.
proof fn lemma_lower_fields_bound(layout: BitLayout, machine: int, node: int, seq: int)
    requires
        layout.wf(),
        fields_fit(layout, machine, node, seq),
    ensures
        0 <= node * pow2(layout.node_shift()) + seq < pow2(layout.machine_shift()),
        0 <= machine * pow2(layout.machine_shift()) + node * pow2(layout.node_shift()) + seq < pow2(
            layout.ts_shift(),
        ),
{
    let s = pow2(layout.sqb()) as int;
    let n = pow2(layout.nib()) as int;
    let m = pow2(layout.mib()) as int;
    lemma_pow2_pos(layout.sqb());
    lemma_pow2_adds(layout.sqb(), layout.nib());
    lemma_pow2_adds(layout.sqb() + layout.nib(), layout.mib());
    assert(0 <= node * s + seq < n * s) by (nonlinear_arith)
        requires
            0 <= node < n,
            0 <= seq < s,
    ;
    let ms = n * s;
    assert(0 <= machine * ms + node * s + seq < m * ms) by (nonlinear_arith)
        requires
            0 <= machine < m,
            0 <= node * s + seq < ms,
    ;
    lemma_mul_is_commutative(n, s);
    lemma_mul_is_commutative(m, ms);
}

/// Reading a field back: with `v = (hi * 2^w + f) * 2^k + lo` (any wrap by
/// a multiple of `2^64` removed), the `w`-bit field at `k` is `f`.
proof fn lemma_field_extract(v: int, c: int, k: nat, w: nat, hi: int, f: int, lo: int)
    requires
        v == (hi * pow2(w) + f) * pow2(k) + lo,
        0 <= lo < pow2(k),
        0 <= f < pow2(w),
        k + w <= 64,
    ensures
        ((v - c * word_span()) / (pow2(k) as int)) % (pow2(w) as int) == f,
        v / (pow2(k) as int) == hi * pow2(w) + f,
{
    lemma_pow2_pos(k);
    lemma_pow2_pos(w);
    lemma_fundamental_div_mod_converse(v, pow2(k) as int, hi * pow2(w) + f, lo);
    lemma_shifted_field_ignores_wrap(v, -c, k, w);
    assert(v + (-c) * word_span() == v - c * word_span()) by (nonlinear_arith);
    lemma_fundamental_div_mod_converse(hi * pow2(w) + f, pow2(w) as int, hi, f);
}

/// A packing within `[0, 2^63)` is its own ID.
proof fn lemma_wrap_small(x: int)
    requires
        0 <= x < 0x8000_0000_0000_0000int,
    ensures
        wrap_i64(x) == x,
{
    lemma_small_mod(x as nat, word_span() as nat);
}

/// The ID differs from the packing by a whole number of `2^64`.
proof fn lemma_wrap_offset(x: int) -> (c: int)
    ensures
        wrap_i64(x) == x - c * word_span(),
{
    lemma_fundamental_div_mod(x, word_span());
    let q = x / word_span();
    let r = x % word_span();
    if r < 0x8000_0000_0000_0000int {
        q
    } else {
        q + 1
    }
}

/// With every field in range, the packing lies in `[0, 2^63)`, so the ID is
/// the packing itself.
pub proof fn lemma_encode_in_range(layout: BitLayout, ts: int, machine: int, node: int, seq: int)
    requires
        layout.wf(),
        fields_fit(layout, machine, node, seq),
        timestamp_fits(layout, ts),
    ensures
        0 <= pack(layout, ts, machine, node, seq) < 0x8000_0000_0000_0000int,
        encode(layout, ts, machine, node, seq) == pack(layout, ts, machine, node, seq),
{
    lemma_lower_fields_bound(layout, machine, node, seq);
    let t = pow2(layout.tsb()) as int;
    let sh = pow2(layout.ts_shift()) as int;
    let lower = machine * pow2(layout.machine_shift()) + node * pow2(layout.node_shift()) + seq;
    lemma_pow2_adds(layout.ts_shift(), layout.tsb());
    lemma2_to64();
    lemma2_to64_rest();
    assert(0 <= ts * sh + lower < t * sh) by (nonlinear_arith)
        requires
            0 <= ts < t,
            0 <= lower < sh,
    ;
    lemma_mul_is_commutative(t, sh);
    lemma_wrap_small(pack(layout, ts, machine, node, seq));
}

/// With every field in range, an ID is
/// `ts * 2^(63 - T) + machine * 2^(N + S) + node * 2^S + seq`.
pub proof fn lemma_id_formula(layout: BitLayout, ts: int, machine: int, node: int, seq: int)
    requires
        layout.wf(),
        fields_fit(layout, machine, node, seq),
        timestamp_fits(layout, ts),
    ensures
        encode(layout, ts, machine, node, seq) == ts * pow2((63 - layout.tsb()) as nat) + machine
            * pow2(layout.nib() + layout.sqb()) + node * pow2(layout.sqb()) + seq,
{
    lemma_encode_in_range(layout, ts, machine, node, seq);
}

/// Packs the four fields into an ID (the timestamp need not fit its field:
/// its excess bits are dropped from the top of the word).
pub(crate) fn encode_fields(layout: &BitLayout, ts: i64, machine: i32, node: i32, seq: u32) -> (r: i64)
    requires
        layout.wf(),
        fields_fit(*layout, machine as int, node as int, seq as int),
    ensures
        r == encode(*layout, ts as int, machine as int, node as int, seq as int),
{
    let node_shift: u64 = layout.node_id_shift() as u64;
    let machine_shift: u64 = layout.machine_id_shift() as u64;
    let ts_shift: u64 = layout.timestamp_shift() as u64;
    proof {
        lemma_lower_fields_bound(*layout, machine as int, node as int, seq as int);
        lemma_pow2_pos(layout.sqb());
        lemma_pow2_adds(layout.sqb(), layout.nib());
        lemma_pow2_strictly_increases(layout.ts_shift(), 64);
        lemma_pow2_adds(layout.ts_shift(), layout.tsb());
        lemma2_to64();
        lemma2_to64_rest();
        assert(node * pow2(layout.node_shift()) < pow2(layout.machine_shift()));
        assert(machine * pow2(layout.machine_shift()) < pow2(layout.ts_shift()));
    }
    let seq_bits: u64 = seq as u64;
    let node_bits: u64 = node as u64;
    let machine_bits: u64 = machine as u64;
    let ts_bits: u64 = ts as u64;
    let low = (node_bits << node_shift) | seq_bits;
    proof {
        lemma_shl_or(node_bits, seq_bits, node_shift);
        lemma_small_mod((node_bits * pow2(node_shift as nat)) as nat, word_span() as nat);
    }
    let mid = (machine_bits << machine_shift) | low;
    proof {
        lemma_shl_or(machine_bits, low, machine_shift);
        lemma_small_mod((machine_bits * pow2(machine_shift as nat)) as nat, word_span() as nat);
    }
    let all = (ts_bits << ts_shift) | mid;
    proof {
        lemma_shl_or(ts_bits, mid, ts_shift);
        lemma_i64_bits(ts);
        let p = pack(*layout, ts as int, machine as int, node as int, seq as int);
        let d = pow2(ts_shift as nat) as int;
        // (ts mod 2^64) * d mod 2^64 + mid == p mod 2^64
        lemma_mul_mod_noop_left(ts as int, d, word_span());
        lemma_add_mod_noop((ts * d) % word_span(), mid as int, word_span());
        lemma_add_mod_noop(ts * d, mid as int, word_span());
        lemma_mod_twice(ts * d, word_span());
        lemma_small_mod(all as nat, word_span() as nat);
        assert(all as int == p % word_span());
        lemma_u64_as_i64(all);
        lemma_mod_twice(p, word_span());
    }
    all as i64
}

// ---------------------------------------------------------------------
// Laws of the encoding
// ---------------------------------------------------------------------

/// Decoding an ID gives back the machine, node and sequence it was packed
/// with, whatever its timestamp; and gives back the timestamp as well when
/// that fits its field.
pub proof fn lemma_decode_encode(layout: BitLayout, ts: int, machine: int, node: int, seq: int)
    requires
        layout.wf(),
        fields_fit(layout, machine, node, seq),
    ensures
        machine_of(layout, encode(layout, ts, machine, node, seq)) == machine,
        node_of(layout, encode(layout, ts, machine, node, seq)) == node,
        sequence_of(layout, encode(layout, ts, machine, node, seq)) == seq,
        timestamp_fits(layout, ts) ==> timestamp_of(layout, encode(layout, ts, machine, node, seq))
            == ts,
{
    let p = pack(layout, ts, machine, node, seq);
    let c = lemma_wrap_offset(p);
    let id = encode(layout, ts, machine, node, seq);
    assert(id == p - c * word_span());
    lemma_pack_nested(layout, ts, machine, node, seq);
    lemma_lower_fields_bound(layout, machine, node, seq);
    lemma_pow2_pos(layout.sqb());
    let m = pow2(layout.mib()) as int;
    let n = pow2(layout.nib()) as int;
    let s = pow2(layout.sqb()) as int;
    // machine: the field above node and sequence
    lemma_field_extract(
        p,
        c,
        layout.machine_shift(),
        layout.mib(),
        ts,
        machine,
        node * pow2(layout.node_shift()) + seq,
    );
    // node: the field above sequence
    lemma_field_extract(p, c, layout.sqb(), layout.nib(), ts * m + machine, node, seq);
    // sequence: the lowest field
    lemma2_to64();
    let above = (ts * m + machine) * n + node;
    assert(p == (above * s + seq) * pow2(0) + 0);
    lemma_field_extract(p, c, 0, layout.sqb(), above, seq, 0);
    assert(id / 1 == id);
    if timestamp_fits(layout, ts) {
        lemma_encode_in_range(layout, ts, machine, node, seq);
        lemma_pow2_pos(layout.ts_shift());
        lemma_fundamental_div_mod_converse(
            p,
            pow2(layout.ts_shift()) as int,
            ts,
            machine * pow2(layout.machine_shift()) + node * pow2(layout.node_shift()) + seq,
        );
    }
}

/// Two IDs packed from fields that fit are equal only if all four fields
/// are equal.
pub proof fn lemma_encode_injective(
    layout: BitLayout,
    ts1: int,
    machine1: int,
    node1: int,
    seq1: int,
    ts2: int,
    machine2: int,
    node2: int,
    seq2: int,
)
    requires
        layout.wf(),
        fields_fit(layout, machine1, node1, seq1),
        fields_fit(layout, machine2, node2, seq2),
        timestamp_fits(layout, ts1),
        timestamp_fits(layout, ts2),
        encode(layout, ts1, machine1, node1, seq1) == encode(layout, ts2, machine2, node2, seq2),
    ensures
        ts1 == ts2,
        machine1 == machine2,
        node1 == node2,
        seq1 == seq2,
{
    lemma_decode_encode(layout, ts1, machine1, node1, seq1);
    lemma_decode_encode(layout, ts2, machine2, node2, seq2);
}

/// For one machine and node, a later timestamp, or the same timestamp with a
/// larger sequence, gives a larger ID (timestamps within their field).
pub proof fn lemma_encode_increasing(
    layout: BitLayout,
    machine: int,
    node: int,
    ts1: int,
    seq1: int,
    ts2: int,
    seq2: int,
)
    requires
        layout.wf(),
        fields_fit(layout, machine, node, seq1),
        fields_fit(layout, machine, node, seq2),
        timestamp_fits(layout, ts1),
        timestamp_fits(layout, ts2),
        ts1 < ts2 || (ts1 == ts2 && seq1 < seq2),
    ensures
        encode(layout, ts1, machine, node, seq1) < encode(layout, ts2, machine, node, seq2),
{
    lemma_encode_in_range(layout, ts1, machine, node, seq1);
    lemma_encode_in_range(layout, ts2, machine, node, seq2);
    lemma_lower_fields_bound(layout, machine, node, seq1);
    lemma_lower_fields_bound(layout, machine, node, seq2);
    let d = pow2(layout.ts_shift()) as int;
    let low1 = machine * pow2(layout.machine_shift()) + node * pow2(layout.node_shift()) + seq1;
    let low2 = machine * pow2(layout.machine_shift()) + node * pow2(layout.node_shift()) + seq2;
    if ts1 < ts2 {
        assert(ts1 * d + low1 < ts2 * d + low2) by (nonlinear_arith)
            requires
                ts1 < ts2,
                0 <= low1 < d,
                0 <= low2,
        ;
    }
}

/// An ID whose fields all fit is never negative.
pub proof fn lemma_encode_nonnegative(layout: BitLayout, ts: int, machine: int, node: int, seq: int)
    requires
        layout.wf(),
        fields_fit(layout, machine, node, seq),
        timestamp_fits(layout, ts),
    ensures
        encode(layout, ts, machine, node, seq) >= 0,
{
    lemma_encode_in_range(layout, ts, machine, node, seq);
}

} // verus!
