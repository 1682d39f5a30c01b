use vstd::prelude::*;

use std::time::{Duration, SystemTime, SystemTimeError};

use crate::error::SnowflakeError;

verus! {

/// Declares `std::time::SystemTime` to Verus as an opaque type: values of it
/// are carried through, never read.
#[verifier::external_type_specification]
#[verifier::external_body]
pub struct ExSystemTime(SystemTime);

/// Declares `std::time::SystemTimeError` to Verus as an opaque type.
#[verifier::external_type_specification]
#[verifier::external_body]
pub struct ExSystemTimeError(SystemTimeError);

/// `std::time::UNIX_EPOCH`, 1970-01-01 00:00:00 UTC.
#[verifier::external_body]
pub(crate) fn unix_epoch() -> SystemTime {
    std::time::UNIX_EPOCH
}

/// `SystemTime::now()`: the current wall-clock time. Nothing is claimed of
/// the value, which depends on the machine's clock.
#[verifier::external_body]
fn system_now() -> SystemTime {
    SystemTime::now()
}

/// What `SystemTime::duration_since` gives for `time` and `earlier`: the
/// span from `earlier` to `time`, or `None` when `earlier` is later than
/// `time`. It depends on the two times alone.
pub uninterp spec fn elapsed_since(time: SystemTime, earlier: SystemTime) -> Option<Duration>;

/// What `Duration::as_millis` gives for `d`: its whole milliseconds.
pub uninterp spec fn whole_millis(d: Duration) -> u128;

/// `SystemTime::duration_since`: claimed to give `Ok` exactly when
/// `elapsed_since(time, earlier)` is `Some`, and then that span.
#[verifier::external_body]
fn duration_since(time: &SystemTime, earlier: SystemTime) -> (r: Result<Duration, SystemTimeError>)
    ensures
        match r {
            Ok(d) => elapsed_since(*time, earlier) == Some(d),
            Err(_) => elapsed_since(*time, earlier) is None,
        },
{
    time.duration_since(earlier)
}

/// `Duration::as_millis`: claimed to give `whole_millis(d)`.
#[verifier::external_body]
fn duration_as_millis(d: &Duration) -> (r: u128)
    ensures
        r == whole_millis(*d),
{
    d.as_millis()
}

/// The whole milliseconds from `epoch` to the time `now`, or `None` when
/// `now` is before `epoch`.
pub open spec fn millis_since(now: SystemTime, epoch: SystemTime) -> Option<u128> {
    match elapsed_since(now, epoch) {
        Some(d) => Some(whole_millis(d)),
        None => None,
    }
}

/// What a clock reading of the time `now` yields as a timestamp counted from
/// `epoch`: the milliseconds kept to the 64 bits of an `i64`, or
/// `ClockBeforeEpoch`.
pub open spec fn reading_at(now: SystemTime, epoch: SystemTime) -> Result<i64, SnowflakeError> {
    millis_result(millis_since(now, epoch))
}

/// `elapsed` milliseconds as a timestamp: kept to the 64 bits of an `i64`,
/// or `ClockBeforeEpoch` for `None`.
pub open spec fn millis_result(elapsed: Option<u128>) -> Result<i64, SnowflakeError> {
    match elapsed {
        Some(ms) => Ok(ms as i64),
        None => Err(SnowflakeError::ClockBeforeEpoch),
    }
}

/// `ms` is what some clock reading yields as a timestamp counted from `epoch`.
pub open spec fn is_reading(epoch: SystemTime, ms: i64) -> bool {
    exists|now: SystemTime| #[trigger] reading_at(now, epoch) == Ok::<i64, SnowflakeError>(ms)
}

/// Some time reads as before `epoch`.
pub open spec fn clock_before_epoch(epoch: SystemTime) -> bool {
    exists|now: SystemTime|
        #[trigger] reading_at(now, epoch) == Err::<i64, SnowflakeError>(
            SnowflakeError::ClockBeforeEpoch,
        )
}

/// Some time at or after `epoch` reads a timestamp earlier than `millis`.
pub open spec fn clock_behind(epoch: SystemTime, millis: int) -> bool {
    exists|now: SystemTime| #[trigger] reading_at(now, epoch) matches Ok(ms) && ms < millis
}

/// `u64::MAX` readings were taken, every one at or after `epoch` and none
/// past `last_millis`: the wait's whole budget of polls found the clock
/// standing still.
pub open spec fn clock_stuck(epoch: SystemTime, last_millis: i64) -> bool {
    exists|earlier: Seq<SystemTime>|
        #[trigger] all_at_most(earlier, epoch, last_millis) && earlier.len() == u64::MAX
}

/// Every time in `nows` is at or after `epoch` and reads a timestamp of at
/// most `last_millis`.
pub open spec fn all_at_most(nows: Seq<SystemTime>, epoch: SystemTime, last_millis: i64) -> bool {
    forall|i: int|
        0 <= i < nows.len() ==> (#[trigger] reading_at(nows[i], epoch) matches Ok(ms) && ms
            <= last_millis)
}

/// What a wait for a timestamp after `last_millis` can end with: a reading
/// past it; `ClockBeforeEpoch` when some time reads before the epoch; or
/// `ClockMovedBackwards` when its whole budget of polls found the clock at
/// or before `last_millis`.
pub open spec fn wait_result(epoch: SystemTime, last_millis: i64, r: Result<i64, SnowflakeError>) -> bool {
    match r {
        Ok(now) => now > last_millis && is_reading(epoch, now),
        Err(SnowflakeError::ClockBeforeEpoch) => clock_before_epoch(epoch),
        Err(SnowflakeError::ClockMovedBackwards) => clock_stuck(epoch, last_millis),
        Err(_) => false,
    }
}

/// The wait for a timestamp after `last_millis` fails only on what the
/// clock reads: on a clock that reads every time after the epoch and after
/// `last_millis`, it ends with a reading past `last_millis`.
pub proof fn lemma_wait_fails_only_on_clock(
    epoch: SystemTime,
    last_millis: i64,
    r: Result<i64, SnowflakeError>,
)
    requires
        wait_result(epoch, last_millis, r),
    ensures
        r matches Ok(now) ==> now > last_millis && is_reading(epoch, now),
        (forall|now: SystemTime| (#[trigger] reading_at(now, epoch) matches Ok(ms) && ms > last_millis))
            ==> r is Ok,
        r is Err ==> exists|now: SystemTime|
            (#[trigger] reading_at(now, epoch) is Err || (reading_at(now, epoch) matches Ok(ms) && ms
                <= last_millis)),
{
    if r is Err {
        if r == Err::<i64, SnowflakeError>(SnowflakeError::ClockMovedBackwards) {
            let earlier = choose|earlier: Seq<SystemTime>|
                #[trigger] all_at_most(earlier, epoch, last_millis) && earlier.len() == u64::MAX;
            assert(reading_at(earlier[0], epoch) matches Ok(ms) && ms <= last_millis);
        }
    }
}

/// `std::hint::spin_loop`: a processor hint inside a busy-wait; no effect on
/// any value.
#[verifier::external_body]
fn spin_loop_hint() {
    std::hint::spin_loop()
}

/// Turns the whole milliseconds elapsed since the epoch (`None` when the
/// clock reads a time before it) into a timestamp: the count kept to the
/// 64 bits of an `i64`, or `ClockBeforeEpoch`.
pub fn elapsed_to_millis(elapsed_millis: Option<u128>) -> (r: Result<i64, SnowflakeError>)
    ensures
        r == millis_result(elapsed_millis),
{
    match elapsed_millis {
        Some(ms) => Ok(ms as i64),
        None => Err(SnowflakeError::ClockBeforeEpoch),
    }
}

/// Returns the number of milliseconds elapsed since `epoch`, or
/// `ClockBeforeEpoch` when the clock reads a time before `epoch`.
///
/// The result is what a reading of the clock at some time yields against
/// `epoch`; which time that is depends on the clock.
pub fn get_time_millis(epoch: SystemTime) -> (r: Result<i64, SnowflakeError>)
    ensures
        exists|now: SystemTime| r == #[trigger] reading_at(now, epoch),
{
    let now = system_now();
    let elapsed = match duration_since(&now, epoch) {
        Ok(d) => Some(duration_as_millis(&d)),
        Err(_) => None,
    };
    let r = elapsed_to_millis(elapsed);
    assert(r == reading_at(now, epoch));
    r
}

/// One poll of the busy-wait for a timestamp after `last_millis`: a
/// reading after it ends the wait with that reading, a failed reading ends
/// it with the failure, and any other reading (`None`) means: keep waiting.
pub fn bide_step(last_millis: i64, reading: Result<i64, SnowflakeError>) -> (r: Option<
    Result<i64, SnowflakeError>,
>)
    ensures
        match reading {
            Ok(now) => if now > last_millis {
                r == Some(Ok::<i64, SnowflakeError>(now))
            } else {
                r is None
            },
            Err(e) => r == Some(Err::<i64, SnowflakeError>(e)),
        },
{
    match reading {
        Ok(now) => if now > last_millis {
            Some(Ok(now))
        } else {
            None
        },
        Err(e) => Some(Err(e)),
    }
}

/// Busy-waits until the clock reads a time after `last_millis`, and returns
/// that reading.
///
/// The clock is read again and again: the first reading past `last_millis`
/// is returned, and the first reading before `epoch` ends the wait with
/// `ClockBeforeEpoch`. The clock is polled at most `u64::MAX` times; a clock
/// that never moves past `last_millis` in all those polls is reported as
/// `ClockMovedBackwards`, as no later timestamp can be had from it.
pub fn biding_time_conditions(last_millis: i64, epoch: SystemTime) -> (r: Result<i64, SnowflakeError>)
    ensures
        r matches Ok(now) ==> now > last_millis && is_reading(epoch, now),
        r is Ok || r == Err::<i64, SnowflakeError>(SnowflakeError::ClockBeforeEpoch) ==> exists|
            earlier: Seq<SystemTime>,
            now: SystemTime,
        |
            #![trigger all_at_most(earlier, epoch, last_millis), reading_at(now, epoch)]
            all_at_most(earlier, epoch, last_millis) && reading_at(now, epoch) == r,
        r is Err ==> r == Err::<i64, SnowflakeError>(SnowflakeError::ClockBeforeEpoch) || r == Err::<
            i64,
            SnowflakeError,
        >(SnowflakeError::ClockMovedBackwards),
        r == Err::<i64, SnowflakeError>(SnowflakeError::ClockMovedBackwards) ==> exists|
            earlier: Seq<SystemTime>,
        |
            #![trigger all_at_most(earlier, epoch, last_millis)]
            earlier.len() == u64::MAX && all_at_most(earlier, epoch, last_millis),
        r == Err::<i64, SnowflakeError>(SnowflakeError::ClockMovedBackwards) ==> clock_stuck(
            epoch,
            last_millis,
        ),
        r == Err::<i64, SnowflakeError>(SnowflakeError::ClockBeforeEpoch) ==> clock_before_epoch(
            epoch,
        ),
        wait_result(epoch, last_millis, r),
{
    let ghost mut earlier: Seq<SystemTime> = Seq::empty();
    let mut polls_left: u64 = u64::MAX;
    while polls_left > 0
        invariant
            all_at_most(earlier, epoch, last_millis),
            earlier.len() == u64::MAX - polls_left,
        decreases polls_left,
    {
        let reading = get_time_millis(epoch);
        let ghost now = choose|now: SystemTime| reading == #[trigger] reading_at(now, epoch);
        match bide_step(last_millis, reading) {
            Some(outcome) => {
                assert(all_at_most(earlier, epoch, last_millis) && reading_at(now, epoch) == outcome);
                return outcome;
            },
            None => {},
        }
        proof {
            assert(all_at_most(earlier.push(now), epoch, last_millis)) by {
                assert forall|i: int| 0 <= i < earlier.push(now).len() implies (#[trigger] reading_at(
                    earlier.push(now)[i],
                    epoch,
                ) matches Ok(ms) && ms <= last_millis) by {
                    if i < earlier.len() {
                        assert(earlier.push(now)[i] == earlier[i]);
                    }
                }
            }
            earlier = earlier.push(now);
        }
        spin_loop_hint();
        polls_left = polls_left - 1;
    }
    Err(SnowflakeError::ClockMovedBackwards)
}

} // verus!
