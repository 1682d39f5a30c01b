use vstd::prelude::*;

use std::time::SystemTime;
use vstd::arithmetic::power2::{pow2, lemma_pow2_pos};
use vstd::arithmetic::div_mod::lemma_small_mod;
use vstd::bits::{lemma_u32_low_bits_mask_is_mod, lemma_u32_pow2_no_overflow};

use crate::encoding::{encode, encode_fields, lemma_decode_encode, lemma_encode_increasing,
    machine_of, node_of, sequence_of, timestamp_fits, timestamp_of};
use crate::error::SnowflakeError;
use crate::generator::SnowflakeIdGenerator;
use crate::utils::{all_at_most, biding_time_conditions, clock_before_epoch, clock_behind, clock_stuck,
    get_time_millis, is_reading, reading_at};

verus! {

/// `(t2, q2)` comes strictly after `(t1, q1)`: a later millisecond, or the
/// same millisecond with a larger sequence number.
pub open spec fn strictly_after(t2: int, q2: int, t1: int, q1: int) -> bool {
    t1 < t2 || (t1 == t2 && q1 < q2)
}

/// One `lazy_generate` call, taking the generator from `g` to `after` and
/// handing out `id`.
pub open spec fn lazy_step(g: SnowflakeIdGenerator, after: SnowflakeIdGenerator, id: int) -> bool {
    &&& id == g.current_id()
    &&& after.wf()
    &&& after.same_source(g)
    &&& after.sequence() == g.next_sequence()
    &&& after.last_millis() == g.last_millis() + if g.next_sequence() == 0 {
        1int
    } else {
        0int
    }
}

/// One `generate` call, taking the generator from `g` to `after` with result
/// `r`: a successful call hands out the current ID and moves strictly past
/// it (to the next sequence number, or at a wrap to a later millisecond at
/// sequence 0); a failed call leaves the generator as it was, and only a
/// wrapping call can fail.
pub open spec fn generate_step(
    g: SnowflakeIdGenerator,
    after: SnowflakeIdGenerator,
    r: Result<i64, SnowflakeError>,
) -> bool {
    &&& after.wf()
    &&& after.same_source(g)
    &&& r is Err ==> after == g
    &&& g.next_sequence() != 0 ==> r is Ok
    &&& r is Ok ==> {
        &&& r == Ok::<i64, SnowflakeError>(g.current_id() as i64)
        &&& after.sequence() == g.next_sequence()
        &&& g.next_sequence() != 0 ==> after.last_millis() == g.last_millis()
        &&& g.next_sequence() == 0 ==> after.last_millis() > g.last_millis()
    }
}

/// What a `generate` call whose counter wraps does, given the clock reading
/// `first` it takes: a failed reading fails the call; a reading before the
/// current timestamp fails it with `ClockMovedBackwards`; a later one
/// becomes the timestamp; on the current millisecond itself the call waits,
/// and fails only if the wait sees the clock before the epoch, or if its
/// whole budget of polls finds the clock standing still.
pub open spec fn generate_wrap_outcome(
    g: SnowflakeIdGenerator,
    after: SnowflakeIdGenerator,
    r: Result<i64, SnowflakeError>,
    first: SystemTime,
) -> bool {
    let epoch = g.spec_epoch();
    match reading_at(first, epoch) {
        Err(e) => r == Err::<i64, SnowflakeError>(e),
        Ok(now) => if now < g.last_millis() {
            r == Err::<i64, SnowflakeError>(SnowflakeError::ClockMovedBackwards)
        } else if now > g.last_millis() {
            &&& r == Ok::<i64, SnowflakeError>(g.current_id() as i64)
            &&& after.last_millis() == now
            &&& after.sequence() == 0
        } else {
            &&& r is Ok ==> {
                &&& r == Ok::<i64, SnowflakeError>(g.current_id() as i64)
                &&& after.last_millis() > now
                &&& is_reading(epoch, after.last_millis() as i64)
                &&& after.sequence() == 0
            }
            &&& r is Err ==> r == Err::<i64, SnowflakeError>(SnowflakeError::ClockBeforeEpoch) || r
                == Err::<i64, SnowflakeError>(SnowflakeError::ClockMovedBackwards)
            &&& r == Err::<i64, SnowflakeError>(SnowflakeError::ClockBeforeEpoch)
                ==> clock_before_epoch(epoch)
            &&& r == Err::<i64, SnowflakeError>(SnowflakeError::ClockMovedBackwards) ==> clock_stuck(
                epoch,
                now,
            )
        },
    }
}

/// What a `real_time_generate` call does, given the clock reading `first`
/// it takes: a failed reading fails the call; a reading before the current
/// timestamp fails it with `ClockMovedBackwards`; otherwise the ID is stamped
/// with the reading and, if the counter then wraps, the call waits for a
/// later reading, failing only if the wait sees the clock before the epoch,
/// or if its whole budget of polls finds the clock standing still.
pub open spec fn real_time_outcome(
    g: SnowflakeIdGenerator,
    after: SnowflakeIdGenerator,
    r: Result<i64, SnowflakeError>,
    first: SystemTime,
) -> bool {
    let epoch = g.spec_epoch();
    match reading_at(first, epoch) {
        Err(e) => r == Err::<i64, SnowflakeError>(e),
        Ok(now) => if now < g.last_millis() {
            r == Err::<i64, SnowflakeError>(SnowflakeError::ClockMovedBackwards)
        } else {
            let q = g.sequence_at(now as int);
            let next = (q + 1) % (pow2(g.spec_layout().sqb()) as int);
            &&& next != 0 ==> r is Ok
            &&& r is Ok ==> {
                &&& r == Ok::<i64, SnowflakeError>(
                    encode(g.spec_layout(), now as int, g.machine(), g.node(), q) as i64,
                )
                &&& after.sequence() == next
                &&& next != 0 ==> after.last_millis() == now
                &&& next == 0 ==> after.last_millis() > now && is_reading(
                    epoch,
                    after.last_millis() as i64,
                )
            }
            &&& r is Err ==> r == Err::<i64, SnowflakeError>(SnowflakeError::ClockBeforeEpoch) || r
                == Err::<i64, SnowflakeError>(SnowflakeError::ClockMovedBackwards)
            &&& r == Err::<i64, SnowflakeError>(SnowflakeError::ClockBeforeEpoch)
                ==> clock_before_epoch(epoch)
            &&& r == Err::<i64, SnowflakeError>(SnowflakeError::ClockMovedBackwards) ==> clock_stuck(
                epoch,
                now,
            )
        },
    }
}

impl SnowflakeIdGenerator {
    /// Going from `self` to `after`, the generator handed out `id`: the ID of
    /// its source at some millisecond and sequence number at or after its
    /// current position, and `after` is positioned strictly later.
    pub open spec fn issues(&self, after: Self, id: int) -> bool {
        exists|t: int, q: int|
            #![trigger encode(self.spec_layout(), t, self.machine(), self.node(), q)]
            {
                &&& id == encode(self.spec_layout(), t, self.machine(), self.node(), q)
                &&& 0 <= q <= self.spec_layout().spec_max_sequence()
                &&& (t == self.last_millis() && q == self.sequence() || strictly_after(
                    t,
                    q,
                    self.last_millis(),
                    self.sequence(),
                ))
                &&& strictly_after(after.last_millis(), after.sequence(), t, q)
            }
    }

    /// The sequence number an ID stamped at millisecond `t` carries: the
    /// current one if `t` is the current millisecond, 0 for a new one.
    pub open spec fn sequence_at(&self, t: int) -> int {
        if t == self.last_millis() {
            self.sequence()
        } else {
            0
        }
    }

    /// Packs the generator's machine, node and sequence with the given
    /// timestamp.
    pub(crate) fn assemble(&self, timestamp_millis: i64) -> (r: i64)
        requires
            self.wf(),
        ensures
            r == encode(
                self.spec_layout(),
                timestamp_millis as int,
                self.machine(),
                self.node(),
                self.sequence(),
            ),
    {
        encode_fields(&self.layout, timestamp_millis, self.machine_id, self.node_id, self.idx)
    }

    /// The sequence number after the current one, wrapping at the field's
    /// capacity.
    fn next_index(&self) -> (r: u32)
        requires
            self.wf(),
            self.can_generate(),
        ensures
            r == self.next_sequence(),
            r <= self.spec_layout().spec_max_sequence(),
    {
        let mask = self.layout.max_sequence();
        proof {
            let s = self.layout.sqb();
            lemma_u32_pow2_no_overflow(s);
            lemma_pow2_pos(s);
            lemma_u32_low_bits_mask_is_mod((self.idx + 1) as u32, s);
        }
        (self.idx + 1) & mask
    }

    /// Generates the next ID, **blocking** until the next millisecond if the
    /// sequence counter wraps.
    ///
    /// The ID is the current state's, and the counter advances. When it wraps
    /// to 0 the clock is read first: a reading after the current timestamp
    /// becomes the timestamp, the current millisecond itself is waited out,
    /// and the call fails with `ClockBeforeEpoch` for a reading before the
    /// epoch or `ClockMovedBackwards` for one before the current timestamp.
    /// A failed call leaves the generator as it was, so no ID is ever handed
    /// out twice.
    #[must_use]
    pub fn generate(&mut self) -> (r: Result<i64, SnowflakeError>)
        requires
            old(self).wf(),
            old(self).can_generate(),
        ensures
            final(self).wf(),
            final(self).same_source(*old(self)),
            r is Err ==> *final(self) == *old(self),
            old(self).next_sequence() != 0 ==> {
                &&& r == Ok::<i64, SnowflakeError>(old(self).current_id() as i64)
                &&& final(self).last_millis() == old(self).last_millis()
                &&& final(self).sequence() == old(self).next_sequence()
            },
            old(self).next_sequence() == 0 ==> exists|first: SystemTime|
                #[trigger] generate_wrap_outcome(*old(self), *final(self), r, first),
            r matches Ok(id) ==> old(self).issues(*final(self), id as int),
            generate_step(*old(self), *final(self), r),
    {
        let ghost before = *self;
        proof {
            before.lemma_next_sequence();
        }
        let id = self.assemble(self.last_time_millis);
        let next = self.next_index();
        if next == 0 {
            let reading = get_time_millis(self.epoch);
            let ghost first = choose|first: SystemTime|
                reading == #[trigger] reading_at(first, before.spec_epoch());
            let now = match reading {
                Ok(now) => now,
                Err(e) => {
                    assert(generate_wrap_outcome(before, *self, Err(e), first));
                    return Err(e);
                },
            };
            let moved = match self.advance_to(now) {
                Ok(moved) => moved,
                Err(e) => {
                    assert(generate_wrap_outcome(before, *self, Err(e), first));
                    return Err(e);
                },
            };
            if !moved {
                match biding_time_conditions(self.last_time_millis, self.epoch) {
                    Ok(later) => self.last_time_millis = later,
                    Err(e) => {
                        assert(generate_wrap_outcome(before, *self, Err(e), first));
                        return Err(e);
                    },
                }
            }
            self.idx = next;
            assert(generate_wrap_outcome(before, *self, Ok(id), first));
        } else {
            self.idx = next;
        }
        proof {
            assert(before.issues(*self, id as int)) by {
                let t = before.last_millis();
                let q = before.sequence();
                assert(id == encode(before.spec_layout(), t, before.machine(), before.node(), q));
            }
        }
        Ok(id)
    }

    /// Moves the timestamp to the clock reading `now_millis` once the counter
    /// has wrapped: a reading before the current timestamp fails with
    /// `ClockMovedBackwards`, the current millisecond itself is answered with
    /// `Ok(false)` (the caller is to wait for a later reading), and a later
    /// reading becomes the timestamp, answered with `Ok(true)`.
    pub fn advance_to(&mut self, now_millis: i64) -> (r: Result<bool, SnowflakeError>)
        requires
            old(self).wf(),
        ensures
            final(self).wf(),
            final(self).same_source(*old(self)),
            final(self).sequence() == old(self).sequence(),
            now_millis < old(self).last_millis() ==> r == Err::<bool, SnowflakeError>(
                SnowflakeError::ClockMovedBackwards,
            ),
            now_millis == old(self).last_millis() ==> r == Ok::<bool, SnowflakeError>(false),
            now_millis > old(self).last_millis() ==> r == Ok::<bool, SnowflakeError>(true),
            final(self).last_millis() == if now_millis > old(self).last_millis() {
                now_millis as int
            } else {
                old(self).last_millis()
            },
    {
        if now_millis < self.last_time_millis {
            return Err(SnowflakeError::ClockMovedBackwards);
        }
        if now_millis == self.last_time_millis {
            return Ok(false);
        }
        self.last_time_millis = now_millis;
        Ok(true)
    }

    /// Generates the next ID, **always** reading the current clock.
    ///
    /// A reading before the current timestamp fails with
    /// `ClockMovedBackwards`, one before the epoch with `ClockBeforeEpoch`;
    /// a later reading restarts the counter at 0. The ID is stamped with the
    /// reading; if the counter then wraps, the call waits for a reading after
    /// it and moves the timestamp there. A failed call, the wait included,
    /// leaves the generator as it was.
    #[must_use]
    pub fn real_time_generate(&mut self) -> (r: Result<i64, SnowflakeError>)
        requires
            old(self).wf(),
            old(self).can_generate(),
        ensures
            final(self).wf(),
            final(self).same_source(*old(self)),
            final(self).last_millis() >= old(self).last_millis(),
            r is Err ==> *final(self) == *old(self),
            r matches Ok(id) ==> old(self).issues(*final(self), id as int),
            exists|first: SystemTime| #[trigger] real_time_outcome(*old(self), *final(self), r, first),
    {
        let ghost before = *self;
        let reading = get_time_millis(self.epoch);
        let ghost first = choose|first: SystemTime| reading == #[trigger] reading_at(first, before.spec_epoch());
        let now = match reading {
            Ok(now) => now,
            Err(e) => {
                assert(real_time_outcome(before, *self, Err(e), first));
                return Err(e);
            },
        };
        let mut stamped = *self;
        let id = match stamped.generate_at(now) {
            Ok(id) => id,
            Err(e) => {
                assert(real_time_outcome(before, *self, Err(e), first));
                return Err(e);
            },
        };
        proof {
            before.lemma_next_sequence();
            stamped.lemma_next_sequence();
        }
        if stamped.idx == 0 {
            match biding_time_conditions(stamped.last_time_millis, stamped.epoch) {
                Ok(later) => stamped.last_time_millis = later,
                Err(e) => {
                    assert(real_time_outcome(before, *self, Err(e), first));
                    return Err(e);
                },
            }
        }
        *self = stamped;
        proof {
            let t = now as int;
            let q = before.sequence_at(t);
            assert(id == encode(before.spec_layout(), t, before.machine(), before.node(), q));
            assert(before.issues(*self, id as int));
        }
        assert(real_time_outcome(before, *self, Ok(id), first));
        Ok(id)
    }

    /// Generates the next ID for a clock reading of `now_millis`: the step
    /// of [`real_time_generate`](Self::real_time_generate) that follows the
    /// reading and precedes any wait.
    ///
    /// A reading before the current timestamp fails with
    /// `ClockMovedBackwards` and leaves the generator unchanged. Otherwise
    /// the ID is stamped with `now_millis` and the sequence number for it
    /// (the current one on the same millisecond, 0 on a new one), and the
    /// counter advances past it.
    pub fn generate_at(&mut self, now_millis: i64) -> (r: Result<i64, SnowflakeError>)
        requires
            old(self).wf(),
            old(self).can_generate(),
        ensures
            final(self).wf(),
            final(self).same_source(*old(self)),
            now_millis < old(self).last_millis() ==> r == Err::<i64, SnowflakeError>(
                SnowflakeError::ClockMovedBackwards,
            ) && *final(self) == *old(self),
            now_millis >= old(self).last_millis() ==> {
                let q = old(self).sequence_at(now_millis as int);
                &&& r == Ok::<i64, SnowflakeError>(
                    encode(
                        old(self).spec_layout(),
                        now_millis as int,
                        old(self).machine(),
                        old(self).node(),
                        q,
                    ) as i64,
                )
                &&& final(self).last_millis() == now_millis
                &&& final(self).sequence() == (q + 1) % (pow2(old(self).spec_layout().sqb()) as int)
            },
    {
        if now_millis < self.last_time_millis {
            return Err(SnowflakeError::ClockMovedBackwards);
        }
        let ghost before = *self;
        if now_millis != self.last_time_millis {
            self.last_time_millis = now_millis;
            self.idx = 0;
        }
        proof {
            lemma_pow2_pos(self.layout.sqb());
            self.lemma_next_sequence();
        }
        let id = self.assemble(self.last_time_millis);
        self.idx = self.next_index();
        proof {
            let t = now_millis as int;
            let q = before.sequence_at(t);
            assert(id == encode(before.spec_layout(), t, before.machine(), before.node(), q));
        }
        Ok(id)
    }

    /// Generates the next ID without reading the system clock: when the
    /// counter wraps, the timestamp moves on by exactly one millisecond.
    ///
    /// The timestamp must not be at `i64::MAX` when the counter wraps.
    #[must_use]
    pub fn lazy_generate(&mut self) -> (r: i64)
        requires
            old(self).wf(),
            old(self).can_generate(),
            old(self).next_sequence() == 0 ==> old(self).last_millis() < i64::MAX,
        ensures
            r == old(self).current_id(),
            final(self).wf(),
            final(self).same_source(*old(self)),
            final(self).sequence() == old(self).next_sequence(),
            final(self).last_millis() == old(self).last_millis() + if old(self).next_sequence()
                == 0 {
                1int
            } else {
                0int
            },
            old(self).issues(*final(self), r as int),
            lazy_step(*old(self), *final(self), r as int),
    {
        let ghost before = *self;
        proof {
            before.lemma_next_sequence();
        }
        let id = self.assemble(self.last_time_millis);
        self.idx = self.next_index();
        if self.idx == 0 {
            self.last_time_millis = self.last_time_millis + 1;
        }
        proof {
            let t = before.last_millis();
            let q = before.sequence();
            assert(id == encode(before.spec_layout(), t, before.machine(), before.node(), q));
        }
        id
    }
}

/// IDs handed out by successive generation calls of one generator strictly
/// increase, as long as the timestamps involved fit their field.
pub proof fn lemma_issued_ids_increase(
    g0: SnowflakeIdGenerator,
    g1: SnowflakeIdGenerator,
    id1: int,
    g2: SnowflakeIdGenerator,
    id2: int,
)
    requires
        g0.wf(),
        g1.same_source(g0),
        g0.issues(g1, id1),
        g1.issues(g2, id2),
        timestamp_fits(g0.spec_layout(), g0.last_millis()),
        timestamp_fits(g0.spec_layout(), g2.last_millis()),
    ensures
        id1 < id2,
{
    let l = g0.spec_layout();
    let m = g0.machine();
    let n = g0.node();
    let (t1, q1) = choose|t: int, q: int|
        {
            &&& id1 == encode(l, t, m, n, q)
            &&& 0 <= q <= l.spec_max_sequence()
            &&& (t == g0.last_millis() && q == g0.sequence() || strictly_after(
                t,
                q,
                g0.last_millis(),
                g0.sequence(),
            ))
            &&& strictly_after(g1.last_millis(), g1.sequence(), t, q)
        };
    let (t2, q2) = choose|t: int, q: int|
        {
            &&& id2 == encode(l, t, m, n, q)
            &&& 0 <= q <= l.spec_max_sequence()
            &&& (t == g1.last_millis() && q == g1.sequence() || strictly_after(
                t,
                q,
                g1.last_millis(),
                g1.sequence(),
            ))
            &&& strictly_after(g2.last_millis(), g2.sequence(), t, q)
        };
    assert(strictly_after(t2, q2, t1, q1));
    lemma_encode_increasing(l, m, n, t1, q1, t2, q2);
}

/// Every ID a generator hands out decodes to its machine and node.
pub proof fn lemma_issued_id_decodes(g: SnowflakeIdGenerator, after: SnowflakeIdGenerator, id: int)
    requires
        g.wf(),
        g.issues(after, id),
    ensures
        machine_of(g.spec_layout(), id) == g.machine(),
        node_of(g.spec_layout(), id) == g.node(),
{
    let l = g.spec_layout();
    let (t, q) = choose|t: int, q: int|
        {
            &&& id == encode(l, t, g.machine(), g.node(), q)
            &&& 0 <= q <= l.spec_max_sequence()
            &&& (t == g.last_millis() && q == g.sequence() || strictly_after(
                t,
                q,
                g.last_millis(),
                g.sequence(),
            ))
            &&& strictly_after(after.last_millis(), after.sequence(), t, q)
        };
    lemma_decode_encode(l, t, g.machine(), g.node(), q);
}

/// The ID a generator's state stands for decodes to that state: machine,
/// node and sequence always, and the timestamp when it fits its field.
pub proof fn lemma_current_id_decodes(g: SnowflakeIdGenerator)
    requires
        g.wf(),
    ensures
        machine_of(g.spec_layout(), g.current_id()) == g.machine(),
        node_of(g.spec_layout(), g.current_id()) == g.node(),
        sequence_of(g.spec_layout(), g.current_id()) == g.sequence(),
        timestamp_fits(g.spec_layout(), g.last_millis()) ==> timestamp_of(
            g.spec_layout(),
            g.current_id(),
        ) == g.last_millis(),
{
    lemma_decode_encode(g.spec_layout(), g.last_millis(), g.machine(), g.node(), g.sequence());
}

/// A `generate` call fails only on what the clock reads. Its error is
/// `ClockBeforeEpoch` only if some time reads before the epoch, and
/// `ClockMovedBackwards` only if some time reads earlier than the current
/// timestamp or the wait's whole budget of polls read it no later than the
/// current timestamp; only a call whose counter wraps can fail, and it
/// leaves the generator as it was. On a clock that reads every time after
/// the epoch and after the current timestamp the call succeeds: it hands out
/// the current ID and, when the counter wraps, moves to a later reading at
/// sequence 0.
pub proof fn lemma_generate_fails_only_on_clock(
    g: SnowflakeIdGenerator,
    after: SnowflakeIdGenerator,
    r: Result<i64, SnowflakeError>,
)
    requires
        g.wf(),
        generate_step(g, after, r),
        g.next_sequence() == 0 ==> exists|first: SystemTime|
            #[trigger] generate_wrap_outcome(g, after, r, first),
    ensures
        r matches Ok(id) ==> id == g.current_id(),
        r is Err ==> g.next_sequence() == 0 && after == g,
        r is Err ==> r == Err::<i64, SnowflakeError>(SnowflakeError::ClockBeforeEpoch) || r == Err::<
            i64,
            SnowflakeError,
        >(SnowflakeError::ClockMovedBackwards),
        r == Err::<i64, SnowflakeError>(SnowflakeError::ClockBeforeEpoch) ==> clock_before_epoch(
            g.spec_epoch(),
        ),
        r == Err::<i64, SnowflakeError>(SnowflakeError::ClockMovedBackwards) ==> clock_behind(
            g.spec_epoch(),
            g.last_millis(),
        ) || clock_stuck(g.spec_epoch(), g.last_millis() as i64),
        r is Ok && g.next_sequence() == 0 ==> {
            &&& after.sequence() == 0
            &&& after.last_millis() > g.last_millis()
            &&& is_reading(g.spec_epoch(), after.last_millis() as i64)
        },
        !clock_before_epoch(g.spec_epoch()) && !clock_stuck(g.spec_epoch(), g.last_millis() as i64)
            ==> r == Ok::<i64, SnowflakeError>(g.current_id() as i64),
{
    let epoch = g.spec_epoch();
    let last = g.last_millis() as i64;
    if g.next_sequence() == 0 {
        let first = choose|first: SystemTime| #[trigger] generate_wrap_outcome(g, after, r, first);
        match reading_at(first, epoch) {
            Err(e) => {
                assert(e == SnowflakeError::ClockBeforeEpoch);
                assert(clock_before_epoch(epoch));
            },
            Ok(now) => {
                if now < g.last_millis() {
                    assert(clock_behind(epoch, g.last_millis()));
                }
                if now <= g.last_millis() {
                    let stuck = Seq::new(u64::MAX as nat, |i: int| first);
                    assert(all_at_most(stuck, epoch, last)) by {
                        assert forall|i: int| 0 <= i < stuck.len() implies (#[trigger] reading_at(
                            stuck[i],
                            epoch,
                        ) matches Ok(ms) && ms <= last) by {
                            assert(stuck[i] == first);
                        }
                    }
                    assert(clock_stuck(epoch, last));
                }
                if now > g.last_millis() {
                    assert(reading_at(first, epoch) == Ok::<i64, SnowflakeError>(
                        after.last_millis() as i64,
                    ));
                }
            },
        }
    }
}

/// A `real_time_generate` call fails only on what the clock reads. Its
/// error is `ClockBeforeEpoch` only if some time reads before the epoch, and
/// `ClockMovedBackwards` only if some time reads earlier than the current
/// timestamp, or if the counter wraps at a reading at or after it and the
/// wait's whole budget of polls read no later than that reading; a failed
/// call leaves the generator as it was. A successful call hands out the ID
/// of some reading at or after the current timestamp, with that reading's
/// sequence number. On a clock that reads every time after the epoch and at
/// or after the current timestamp, a call whose counter is below its
/// maximum succeeds.
pub proof fn lemma_real_time_fails_only_on_clock(
    g: SnowflakeIdGenerator,
    after: SnowflakeIdGenerator,
    r: Result<i64, SnowflakeError>,
)
    requires
        g.wf(),
        r is Err ==> after == g,
        exists|first: SystemTime| #[trigger] real_time_outcome(g, after, r, first),
    ensures
        r is Err ==> r == Err::<i64, SnowflakeError>(SnowflakeError::ClockBeforeEpoch) || r == Err::<
            i64,
            SnowflakeError,
        >(SnowflakeError::ClockMovedBackwards),
        r == Err::<i64, SnowflakeError>(SnowflakeError::ClockBeforeEpoch) ==> clock_before_epoch(
            g.spec_epoch(),
        ),
        r == Err::<i64, SnowflakeError>(SnowflakeError::ClockMovedBackwards) ==> clock_behind(
            g.spec_epoch(),
            g.last_millis(),
        ) || exists|now: i64|
            #![trigger is_reading(g.spec_epoch(), now)]
            {
                &&& is_reading(g.spec_epoch(), now)
                &&& now >= g.last_millis()
                &&& g.sequence_at(now as int) == g.spec_layout().spec_max_sequence()
                &&& clock_stuck(g.spec_epoch(), now)
            },
        r matches Ok(id) ==> exists|now: i64|
            #![trigger is_reading(g.spec_epoch(), now)]
            {
                &&& is_reading(g.spec_epoch(), now)
                &&& now >= g.last_millis()
                &&& id == encode(g.spec_layout(), now as int, g.machine(), g.node(), g.sequence_at(now as int))
                &&& after.last_millis() >= now
            },
        !clock_before_epoch(g.spec_epoch()) && !clock_behind(g.spec_epoch(), g.last_millis())
            && g.sequence() < g.spec_layout().spec_max_sequence() ==> r is Ok,
{
    let epoch = g.spec_epoch();
    let first = choose|first: SystemTime| #[trigger] real_time_outcome(g, after, r, first);
    let s = g.spec_layout().sqb();
    lemma_pow2_pos(s);
    g.lemma_next_sequence();
    match reading_at(first, epoch) {
        Err(e) => {
            assert(e == SnowflakeError::ClockBeforeEpoch);
            assert(clock_before_epoch(epoch));
        },
        Ok(now) => {
            assert(is_reading(epoch, now));
            if now < g.last_millis() {
                assert(clock_behind(epoch, g.last_millis()));
            } else {
                let q = g.sequence_at(now as int);
                let next = (q + 1) % (pow2(s) as int);
                if q < g.spec_layout().spec_max_sequence() {
                    lemma_small_mod((q + 1) as nat, pow2(s));
                    assert(next != 0);
                }
            }
        },
    }
}

} // verus!
