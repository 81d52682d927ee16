//! The time of day, and a time that lies far enough back.
//!
//! What a clock shows is no function of anything that the library knows. So the contracts here
//! speak of the readings themselves: `call_ensures(f, args, r)` says that `r` is what a call of
//! `f` returned.

use std::time::{Duration, Instant, SystemTime, SystemTimeError};
use vstd::prelude::*;

verus! {

/// After so many seconds something is out of date.
pub const EXPIRY_SECONDS: u64 = 3600;

/// `std::time::Instant`, a reading of a clock that never goes back.
#[verifier::external_type_specification]
#[verifier::external_body]
pub struct ExInstant(std::time::Instant);

/// `std::time::SystemTime`, a reading of the system's clock.
#[verifier::external_type_specification]
#[verifier::external_body]
pub struct ExSystemTime(std::time::SystemTime);

/// `std::time::SystemTimeError`: the clock stands before the time it was held against.
#[verifier::external_type_specification]
#[verifier::external_body]
pub struct ExSystemTimeError(std::time::SystemTimeError);

/// `Duration::from_secs`: so many seconds. Nothing is claimed of the value.
pub assume_specification[ Duration::from_secs ](seconds: u64) -> Duration;

/// `Duration::as_secs`: the whole seconds. Nothing is claimed of the value.
pub assume_specification[ Duration::as_secs ](duration: &Duration) -> u64;

/// `Instant::now` reads the clock. Nothing is claimed of the reading.
pub assume_specification[ Instant::now ]() -> Instant;

/// `Instant::checked_sub`: an earlier time, if it can be represented. Nothing is claimed of it.
pub assume_specification[ Instant::checked_sub ](
    instant: &Instant,
    duration: Duration,
) -> Option<Instant>;

/// `SystemTime::now` reads the clock. Nothing is claimed of the reading.
pub assume_specification[ SystemTime::now ]() -> SystemTime;

/// `SystemTime::duration_since`: the time since an earlier one, if it is earlier. Nothing is
/// claimed of the value.
pub assume_specification[ SystemTime::duration_since ](
    time: &SystemTime,
    earlier: SystemTime,
) -> Result<Duration, SystemTimeError>;

/// `SystemTime::UNIX_EPOCH`. Nothing is claimed of the value.
#[verifier::external_body]
pub fn unix_epoch() -> (epoch: SystemTime) {
    SystemTime::UNIX_EPOCH
}

/// The earlier time, or `now` where there is none.
pub fn earlier_or_now(earlier: Option<Instant>, now: Instant) -> (time: Instant)
    ensures
        time == (match earlier {
            Some(t) => t,
            None => now,
        }),
{
    match earlier {
        Some(t) => t,
        None => now,
    }
}

/// A time at which what is out of date by now was set: an hour ago, or now where the clock does
/// not reach back so far.
pub fn get_expired_time() -> (time: Instant)
    ensures
        exists|now: Instant, hour: Duration, earlier: Option<Instant>|
            {
                &&& call_ensures(Instant::now, (), now)
                &&& call_ensures(Duration::from_secs, (EXPIRY_SECONDS,), hour)
                &&& #[trigger] call_ensures(Instant::checked_sub, (&now, hour), earlier)
                &&& time == (match earlier {
                    Some(t) => t,
                    None => now,
                })
            },
{
    let read = Instant::now;
    let seconds = Duration::from_secs;
    let back = Instant::checked_sub;
    let now = read();
    let hour = seconds(EXPIRY_SECONDS);
    let earlier = back(&now, hour);
    earlier_or_now(earlier, now)
}

/// The whole seconds of a duration, or zero where there is none.
pub fn seconds_or_zero(since: Option<u64>) -> (seconds: u64)
    ensures
        seconds == (match since {
            Some(s) => s,
            None => 0,
        }),
{
    match since {
        Some(s) => s,
        None => 0,
    }
}

/// The seconds since the beginning of 1970; zero where the clock stands before it.
pub fn now() -> (seconds: u64)
    ensures
        exists|time: SystemTime, epoch: SystemTime, since: Result<Duration, SystemTimeError>|
            {
                &&& call_ensures(SystemTime::now, (), time)
                &&& call_ensures(unix_epoch, (), epoch)
                &&& #[trigger] call_ensures(SystemTime::duration_since, (&time, epoch), since)
                &&& match since {
                    Ok(duration) => call_ensures(Duration::as_secs, (&duration,), seconds),
                    Err(_) => seconds == 0,
                }
            },
{
    let read = SystemTime::now;
    let start = unix_epoch;
    let subtract = SystemTime::duration_since;
    let whole = Duration::as_secs;
    let time = read();
    let epoch = start();
    match subtract(&time, epoch) {
        Ok(duration) => seconds_or_zero(Some(whole(&duration))),
        Err(_) => seconds_or_zero(None),
    }
}

/// The earlier time counts where there is one, and so do the seconds; else it is now, and zero.
pub proof fn law_fallbacks(
    earlier: Option<Instant>,
    present: Instant,
    time: Instant,
    since: Option<u64>,
    seconds: u64,
)
    requires
        call_ensures(earlier_or_now, (earlier, present), time),
        call_ensures(seconds_or_zero, (since,), seconds),
    ensures
        earlier matches Some(t) ==> time == t,
        earlier is None ==> time == present,
        since matches Some(s) ==> seconds == s,
        since is None ==> seconds == 0,
{
}

/// What is out of date was set 3600 seconds before a reading of the clock, or at that reading where
/// there is no such time.
pub proof fn law_expired_time(time: Instant)
    requires
        call_ensures(get_expired_time, (), time),
    ensures
        exists|reading: Instant, hour: Duration, earlier: Option<Instant>|
            {
                &&& call_ensures(Instant::now, (), reading)
                &&& call_ensures(Duration::from_secs, (3600u64,), hour)
                &&& #[trigger] call_ensures(Instant::checked_sub, (&reading, hour), earlier)
                &&& earlier matches Some(t) ==> time == t
                &&& earlier is None ==> time == reading
            },
{
}

/// The time of day is the whole seconds from the epoch to a reading of the clock; zero where the
/// reading is before the epoch.
pub proof fn law_time_of_day(seconds: u64)
    requires
        call_ensures(now, (), seconds),
    ensures
        exists|time: SystemTime, epoch: SystemTime, since: Result<Duration, SystemTimeError>|
            {
                &&& call_ensures(SystemTime::now, (), time)
                &&& call_ensures(unix_epoch, (), epoch)
                &&& #[trigger] call_ensures(SystemTime::duration_since, (&time, epoch), since)
                &&& since matches Ok(duration) ==> call_ensures(
                    Duration::as_secs,
                    (&duration,),
                    seconds,
                )
                &&& since is Err ==> seconds == 0
            },
{
}

} // verus!
